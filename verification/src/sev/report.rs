//! The AMD SEV-SNP attestation report (SEV Secure Nested Paging Firmware ABI
//! Specification, Table 21) and the bit fields inside it.
//!
//! A report is modelled by its wire encoding: 1184 bytes, every integer field
//! little-endian, laid out in declaration order without padding.

use vstd::prelude::*;
use vstd::bytes::*;

use crate::le::{push_bytes, push_u32, push_u64, read_array, read_u32, read_u64, u32_at, u64_at, lemma_u32_le, lemma_u64_le};
use super::AttestationCoreErr;
use crate::text::{decimal, hex};
use super::guest::{guest_report_outcome, request_guest_report, ReportResponse, SevGuestErr};

pub use super::tcb_version::TCBVersion;

verus! {

/// The amount of bytes that a report request can provide to be signed by the
/// hardware keys.
pub const USER_DATA_SIZE: usize = 64;

/// The size of an attestation report in bytes.
pub const REPORT_SIZE: usize = 1184;

/// Bit `i` of `x` is set.
pub open spec fn bit64(x: u64, i: u64) -> bool {
    (x >> i) & 1u64 == 1u64
}

/// Bit `i` of `x` is set.
pub open spec fn bit32(x: u32, i: u32) -> bool {
    (x >> i) & 1u32 == 1u32
}

/// An SNP firmware ABI version: (major, minor).
#[derive(PartialEq, Eq, Structural, Clone, Debug)]
pub struct AbiVersion {
    major: u8,
    minor: u8,
}

impl View for AbiVersion {
    type V = (u8, u8);

    closed spec fn view(&self) -> (u8, u8) {
        (self.major, self.minor)
    }
}

impl AbiVersion {
    pub fn new(major: u8, minor: u8) -> (v: AbiVersion)
        ensures
            v@ == (major, minor),
    {
        AbiVersion { major, minor }
    }

    pub fn major(&self) -> (r: u8)
        ensures
            r == self@.0,
    {
        self.major
    }

    pub fn minor(&self) -> (r: u8)
        ensures
            r == self@.1,
    {
        self.minor
    }

    /// A guest that needs at least `self` runs on firmware of ABI `other`:
    /// same major version, and a minor version not older.
    pub fn is_compatible_with(&self, other: Self) -> (r: bool)
        ensures
            r == (self@.0 == other@.0 && self@.1 <= other@.1),
    {
        self.major == other.major && self.minor <= other.minor
    }

    /// The version as text: major, a dot, minor, both in decimal.
    pub fn to_string(&self) -> (r: String)
        ensures
            r@ == decimal(self@.0 as nat) + seq!['.'] + decimal(self@.1 as nat),
    {
        abi_version_text(self.major, self.minor)
    }
}

/// `format!("{}.{}", major, minor)`. Claimed: both numbers in decimal,
/// joined by a dot, as `Display` of integers writes them.
#[verifier::external_body]
fn abi_version_text(major: u8, minor: u8) -> (r: String)
    ensures
        r@ == decimal(major as nat) + seq!['.'] + decimal(minor as nat),
{
    format!("{}.{}", major, minor)
}

/// Bitfield that encodes features about the guest itself.
#[derive(PartialEq, Eq, Structural, Clone, Debug)]
pub struct GuestPolicy(u64);

impl View for GuestPolicy {
    type V = u64;

    closed spec fn view(&self) -> u64 {
        self.0
    }
}

impl GuestPolicy {
    /// Bit 25: guest access to the page move and swap commands is disabled.
    pub fn page_swap_disabled(&self) -> (r: bool)
        ensures
            r == bit64(self@, 25),
    {
        let x = self.0;
        assert(x & (1u64 << 25u64) > 0 <==> (x >> 25u64) & 1u64 == 1u64) by (bit_vector);
        x & (1u64 << 25u64) > 0
    }

    /// Bit 24: ciphertext hiding for the DRAM must be enabled.
    pub fn ciphertext_hiding_dram(&self) -> (r: bool)
        ensures
            r == bit64(self@, 24),
    {
        let x = self.0;
        assert(x & (1u64 << 24u64) > 0 <==> (x >> 24u64) & 1u64 == 1u64) by (bit_vector);
        x & (1u64 << 24u64) > 0
    }

    /// Bit 23: Running Average Power Limit must be disabled.
    pub fn rapl_disabled(&self) -> (r: bool)
        ensures
            r == bit64(self@, 23),
    {
        let x = self.0;
        assert(x & (1u64 << 23u64) > 0 <==> (x >> 23u64) & 1u64 == 1u64) by (bit_vector);
        x & (1u64 << 23u64) > 0
    }

    /// Bit 22: AES 256 XTS is required for memory encryption.
    pub fn mem_aes_256_xts(&self) -> (r: bool)
        ensures
            r == bit64(self@, 22),
    {
        let x = self.0;
        assert(x & (1u64 << 22u64) > 0 <==> (x >> 22u64) & 1u64 == 1u64) by (bit_vector);
        x & (1u64 << 22u64) > 0
    }

    /// Bit 21: CXL can be populated with devices or memory.
    pub fn cxl_allow(&self) -> (r: bool)
        ensures
            r == bit64(self@, 21),
    {
        let x = self.0;
        assert(x & (1u64 << 21u64) > 0 <==> (x >> 21u64) & 1u64 == 1u64) by (bit_vector);
        x & (1u64 << 21u64) > 0
    }

    /// Bit 20: the guest may only run on a single socket.
    pub fn single_socket(&self) -> (r: bool)
        ensures
            r == bit64(self@, 20),
    {
        let x = self.0;
        assert(x & (1u64 << 20u64) > 0 <==> (x >> 20u64) & 1u64 == 1u64) by (bit_vector);
        x & (1u64 << 20u64) > 0
    }

    /// Bit 19: debugging is allowed, so the guest is not confidential.
    pub fn debugging_allowed(&self) -> (r: bool)
        ensures
            r == bit64(self@, 19),
    {
        let x = self.0;
        assert(x & (1u64 << 19u64) > 0 <==> (x >> 19u64) & 1u64 == 1u64) by (bit_vector);
        x & (1u64 << 19u64) > 0
    }

    /// Bit 18: migration by a migration agent is allowed.
    pub fn migration_allowed(&self) -> (r: bool)
        ensures
            r == bit64(self@, 18),
    {
        let x = self.0;
        assert(x & (1u64 << 18u64) > 0 <==> (x >> 18u64) & 1u64 == 1u64) by (bit_vector);
        x & (1u64 << 18u64) > 0
    }

    /// Bit 16: simultaneous multithreading is allowed.
    pub fn smt_allowed(&self) -> (r: bool)
        ensures
            r == bit64(self@, 16),
    {
        let x = self.0;
        assert(x & (1u64 << 16u64) > 0 <==> (x >> 16u64) & 1u64 == 1u64) by (bit_vector);
        x & (1u64 << 16u64) > 0
    }

    /// The minimum ABI version for this guest: minor in bits 0..8, major in
    /// bits 8..16.
    pub fn minimum_abi(&self) -> (v: AbiVersion)
        ensures
            v@ == (((self@ / 256) % 256) as u8, (self@ % 256) as u8),
    {
        let x = self.0;
        let minor = (x & 0xffu64) as u8;
        let major = ((x >> 8u64) & 0xffu64) as u8;
        assert(x & 0xffu64 == x % 256) by (bit_vector);
        assert((x >> 8u64) & 0xffu64 == (x / 256) % 256) by (bit_vector);
        AbiVersion::new(major, minor)
    }
}

/// Build, minor and major version of a firmware.
#[derive(PartialEq, Eq, Structural, Clone, Debug)]
pub struct FirmwareVersion {
    build: u8,
    minor: u8,
    major: u8,
    _reserved: u8,
}

impl View for FirmwareVersion {
    /// (build, minor, major, reserved), in wire order.
    type V = (u8, u8, u8, u8);

    closed spec fn view(&self) -> (u8, u8, u8, u8) {
        (self.build, self.minor, self.major, self._reserved)
    }
}

impl FirmwareVersion {
    pub fn build(&self) -> (r: u8)
        ensures
            r == self@.0,
    {
        self.build
    }

    pub fn minor(&self) -> (r: u8)
        ensures
            r == self@.1,
    {
        self.minor
    }

    pub fn major(&self) -> (r: u8)
        ensures
            r == self@.2,
    {
        self.major
    }
}

/// Bitfield that encodes features of the platform.
#[derive(PartialEq, Eq, Structural, Clone, Debug)]
pub struct PlatformInfo(pub u64);

impl PlatformInfo {
    /// Bit 0: simultaneous multithreading is enabled.
    pub fn smt_enabled(&self) -> (r: bool)
        ensures
            r == bit64(self.0, 0),
    {
        let x = self.0;
        assert(x & (1u64 << 0u64) > 0 <==> (x >> 0u64) & 1u64 == 1u64) by (bit_vector);
        x & (1u64 << 0u64) > 0
    }

    /// Bit 1: transparent secure memory encryption is enabled.
    pub fn tsme_enabled(&self) -> (r: bool)
        ensures
            r == bit64(self.0, 1),
    {
        let x = self.0;
        assert(x & (1u64 << 1u64) > 0 <==> (x >> 1u64) & 1u64 == 1u64) by (bit_vector);
        x & (1u64 << 1u64) > 0
    }

    /// Bit 2: error correcting codes are in use for memory.
    pub fn ecc_enabled(&self) -> (r: bool)
        ensures
            r == bit64(self.0, 2),
    {
        let x = self.0;
        assert(x & (1u64 << 2u64) > 0 <==> (x >> 2u64) & 1u64 == 1u64) by (bit_vector);
        x & (1u64 << 2u64) > 0
    }

    /// Bit 3: the RAPL feature is disabled.
    pub fn rapl_disabled(&self) -> (r: bool)
        ensures
            r == bit64(self.0, 3),
    {
        let x = self.0;
        assert(x & (1u64 << 3u64) > 0 <==> (x >> 3u64) & 1u64 == 1u64) by (bit_vector);
        x & (1u64 << 3u64) > 0
    }

    /// Bit 4: ciphertext hiding is enabled for the DRAM.
    pub fn ciphertext_hiding_dram_enabled(&self) -> (r: bool)
        ensures
            r == bit64(self.0, 4),
    {
        let x = self.0;
        assert(x & (1u64 << 4u64) > 0 <==> (x >> 4u64) & 1u64 == 1u64) by (bit_vector);
        x & (1u64 << 4u64) > 0
    }

    /// Bit 5: alias detection has completed since the last reset and found
    /// no aliasing addresses.
    pub fn alias_check_complete(&self) -> (r: bool)
        ensures
            r == bit64(self.0, 5),
    {
        let x = self.0;
        assert(x & (1u64 << 5u64) > 0 <==> (x >> 5u64) & 1u64 == 1u64) by (bit_vector);
        x & (1u64 << 5u64) > 0
    }

    /// Bit 7: SEV trusted I/O is enabled (bit 6 is reserved).
    pub fn sev_tio_enabled(&self) -> (r: bool)
        ensures
            r == bit64(self.0, 7),
    {
        let x = self.0;
        assert(x & (1u64 << 7u64) > 0 <==> (x >> 7u64) & 1u64 == 1u64) by (bit_vector);
        x & (1u64 << 7u64) > 0
    }
}

/// VMPL permission level used to generate a report.
#[derive(Debug, Copy, Clone, PartialEq, Eq, Structural)]
pub enum VMPL {
    ZERO,
    ONE,
    TWO,
    THREE,
    /// Only in report version 3 and later.
    HOST,
}

/// The 32-bit code of a VMPL in the report.
pub open spec fn vmpl_code(v: VMPL) -> u32 {
    match v {
        VMPL::ZERO => 0,
        VMPL::ONE => 1,
        VMPL::TWO => 2,
        VMPL::THREE => 3,
        VMPL::HOST => 0xffff_ffff,
    }
}

/// Each VMPL level is coded in a report by its number, the host by all
/// ones; different levels have different codes, and every code that names
/// a level names exactly one.
pub proof fn lemma_vmpl_codes(v: VMPL, w: VMPL)
    ensures
        (vmpl_code(v) == 0) == (v == VMPL::ZERO),
        (vmpl_code(v) == 1) == (v == VMPL::ONE),
        (vmpl_code(v) == 2) == (v == VMPL::TWO),
        (vmpl_code(v) == 3) == (v == VMPL::THREE),
        (vmpl_code(v) == 0xffff_ffff) == (v == VMPL::HOST),
        vmpl_code(v) == vmpl_code(w) ==> v == w,
        is_vmpl_code(vmpl_code(v)),
{
}

/// The codes that name a VMPL.
pub open spec fn is_vmpl_code(c: u32) -> bool {
    c == 0 || c == 1 || c == 2 || c == 3 || c == 0xffff_ffff
}

impl VMPL {
    /// The code of this level.
    pub fn code(&self) -> (c: u32)
        ensures
            c == vmpl_code(*self),
    {
        match self {
            VMPL::ZERO => 0,
            VMPL::ONE => 1,
            VMPL::TWO => 2,
            VMPL::THREE => 3,
            VMPL::HOST => 0xffff_ffff,
        }
    }

    /// The level a code names, if it names one.
    pub fn from_code(c: u32) -> (v: Option<VMPL>)
        ensures
            v is Some <==> is_vmpl_code(c),
            v matches Some(l) ==> vmpl_code(l) == c,
    {
        if c == 0 {
            Some(VMPL::ZERO)
        } else if c == 1 {
            Some(VMPL::ONE)
        } else if c == 2 {
            Some(VMPL::TWO)
        } else if c == 3 {
            Some(VMPL::THREE)
        } else if c == 0xffff_ffff {
            Some(VMPL::HOST)
        } else {
            None
        }
    }
}

/// Key that signed the attestation report.
#[derive(Debug, PartialEq, Eq, Structural, Clone, Copy)]
pub enum SigningKey {
    Vcek,
    Vlek,
    Reserved,
    NotSigned,
}

/// The signing key that a 3-bit key selector names.
pub open spec fn signing_key_of(sel: u32) -> SigningKey {
    if sel == 0 {
        SigningKey::Vcek
    } else if sel == 1 {
        SigningKey::Vlek
    } else if sel == 7 {
        SigningKey::NotSigned
    } else {
        SigningKey::Reserved
    }
}

/// The signing key that a key usage value selects.
pub open spec fn key_usage_signing_key(x: u32) -> SigningKey {
    signing_key_of((x / 4) % 8)
}

/// The key selector is bits 2 to 4 of the key usage value: selector 0 is
/// the VCEK, 1 the VLEK, 7 no signature, and every other selector is
/// reserved; no other bit matters.
pub proof fn lemma_signing_key_selector(x: u32)
    ensures
        (x & 0x1c == 0) == (key_usage_signing_key(x) == SigningKey::Vcek),
        (x & 0x1c == 0x04) == (key_usage_signing_key(x) == SigningKey::Vlek),
        (x & 0x1c == 0x1c) == (key_usage_signing_key(x) == SigningKey::NotSigned),
        (x & 0x1c != 0 && x & 0x1c != 0x04 && x & 0x1c != 0x1c) == (key_usage_signing_key(x)
            == SigningKey::Reserved),
        forall|y: u32| #[trigger] (y & 0x1c) == x & 0x1c ==> key_usage_signing_key(y) == key_usage_signing_key(x),
{
    assert(x & 0x1c == ((x / 4) % 8) * 4) by (bit_vector);
    assert forall|y: u32| #[trigger] (y & 0x1c) == x & 0x1c implies (y / 4) % 8 == (x / 4) % 8 by {
        assert(y & 0x1c == ((y / 4) % 8) * 4) by (bit_vector);
    }
}

/// Bitfield describing the key usage of the report.
#[derive(Debug, PartialEq, Eq, Structural, Clone)]
pub struct KeyUsageInfo(u32);

impl View for KeyUsageInfo {
    type V = u32;

    closed spec fn view(&self) -> u32 {
        self.0
    }
}

impl KeyUsageInfo {
    /// Bit 0: the author key is enabled.
    pub fn author_key_enabled(&self) -> (r: bool)
        ensures
            r == bit32(self@, 0),
    {
        let x = self.0;
        assert(x & (1u32 << 0u32) != 0 <==> (x >> 0u32) & 1u32 == 1u32) by (bit_vector);
        x & (1u32 << 0u32) != 0
    }

    /// Bit 1: the chip id is masked out of the report.
    pub fn mask_chip_key(&self) -> (r: bool)
        ensures
            r == bit32(self@, 1),
    {
        let x = self.0;
        assert(x & (1u32 << 1u32) != 0 <==> (x >> 1u32) & 1u32 == 1u32) by (bit_vector);
        x & (1u32 << 1u32) != 0
    }

    /// The signing key selected by bits 2..5.
    pub fn signing_key(&self) -> (k: SigningKey)
        ensures
            k == key_usage_signing_key(self@),
    {
        let x = self.0;
        assert((x >> 2u32) & 0x7u32 == (x / 4) % 8) by (bit_vector);
        let sel = (x >> 2u32) & 0x7u32;
        if sel == 0 {
            SigningKey::Vcek
        } else if sel == 1 {
            SigningKey::Vlek
        } else if sel == 7 {
            SigningKey::NotSigned
        } else {
            SigningKey::Reserved
        }
    }
}

/// A CPUID Fn0000_0001_EAX value: family, model and stepping identifiers.
#[derive(Clone, Copy, PartialEq, Eq, Structural, Debug)]
pub struct CpuId(pub u32);

/// The CPUID value of (family, model, stepping): stepping in bits 0..4, the
/// low model nibble in bits 4..8, the base family in bits 8..12, the high
/// model nibble in bits 16..20 and the extended family in bits 20..28. A
/// family of 0xf or more is a base family of 0xf plus an extended family.
pub open spec fn fms_value(family: u8, model: u8, stepping: u8) -> int {
    let family_hi: int = if family >= 0xf { family - 0xf } else { 0 };
    let family_lo: int = if family >= 0xf { 0xf } else { family as int };
    family_hi * 0x10_0000 + (model / 16) * 0x1_0000 + family_lo * 0x100 + (model % 16) * 0x10
        + stepping
}

/// The family a CPUID value names: base family plus extended family.
pub open spec fn cpuid_family(v: u32) -> int {
    (v / 0x100) % 0x10 + (v / 0x10_0000) % 0x100
}

/// The model a CPUID value names: high nibble from bits 16..20, low nibble
/// from bits 4..8.
pub open spec fn cpuid_model(v: u32) -> int {
    ((v / 0x1_0000) % 0x10) * 0x10 + (v / 0x10) % 0x10
}

/// The stepping a CPUID value names.
pub open spec fn cpuid_stepping(v: u32) -> int {
    (v % 0x10) as int
}

impl CpuId {
    /// See AMD64 Architecture Programmer's Manual Volume 3, Appendix E.3.2:
    /// CPUID Fn0000_0001_EAX Family, Model, Stepping Identifiers.
    ///
    /// Returns `None` if stepping is more than `0xf`.
    pub fn from_fms(family: u8, model: u8, stepping: u8) -> (r: Option<Self>)
        ensures
            r is None <==> stepping > 0xf,
            r matches Some(c) ==> c.0 == fms_value(family, model, stepping),
    {
        let (family_hi, family_lo): (u32, u32) = match family.checked_sub(0x0f) {
            Some(difference) => (difference as u32, 0x0fu32),
            None => (0u32, family as u32),
        };
        let model_hi: u32 = ((model >> 4u8) & 0x0fu8) as u32;
        let model_lo: u32 = (model & 0x0fu8) as u32;
        if stepping > 0xf {
            return None;
        }
        let stepping_lo: u32 = stepping as u32;
        assert(model_hi == model / 16 && model_lo == model % 16) by {
            assert((model >> 4u8) & 0x0fu8 == model / 16) by (bit_vector);
            assert(model & 0x0fu8 == model % 16) by (bit_vector);
        }
        assert(family_hi < 256 && family_lo < 16);
        assert((family_hi << 20u32) | (model_hi << 16u32) | (family_lo << 8u32) | (model_lo << 4u32)
            | stepping_lo == family_hi * 0x10_0000 + model_hi * 0x1_0000 + family_lo * 0x100
            + model_lo * 0x10 + stepping_lo) by (bit_vector)
            requires
                family_hi < 256,
                model_hi < 16,
                family_lo < 16,
                model_lo < 16,
                stepping_lo < 16,
        ;
        Some(
            CpuId(
                (family_hi << 20u32) | (model_hi << 16u32) | (family_lo << 8u32) | (model_lo << 4u32)
                    | stepping_lo,
            ),
        )
    }
}

impl CpuId {
    /// The debug form: the value as eight lower-case hexadecimal digits,
    /// as in `CpuId(0x00a00f11)`.
    pub fn debug_text(&self) -> (r: String)
        ensures
            r@ == "CpuId(0x"@ + padded_hex(self.0 as nat, 8) + ")"@,
    {
        cpuid_debug_text(self.0)
    }
}

/// `n` in lower-case hexadecimal, with leading zeros up to `width` digits.
pub open spec fn padded_hex(n: nat, width: nat) -> Seq<char> {
    let h = hex(n);
    if h.len() < width {
        Seq::new((width - h.len()) as nat, |i: int| '0') + h
    } else {
        h
    }
}

/// `format!("CpuId(0x{:08x})", value)`. Claimed: the value in lower-case
/// hexadecimal, zero-padded to eight digits, as `{:08x}` writes it.
#[verifier::external_body]
fn cpuid_debug_text(value: u32) -> (r: String)
    ensures
        r@ == "CpuId(0x"@ + padded_hex(value as nat, 8) + ")"@,
{
    format!("CpuId(0x{:08x})", value)
}

/// A CPUID value built from (family, model, stepping) names exactly that
/// family, model and stepping again.
pub proof fn lemma_fms_roundtrip(family: u8, model: u8, stepping: u8)
    requires
        stepping <= 0xf,
    ensures
        0 <= fms_value(family, model, stepping) <= u32::MAX,
        cpuid_family(fms_value(family, model, stepping) as u32) == family,
        cpuid_model(fms_value(family, model, stepping) as u32) == model,
        cpuid_stepping(fms_value(family, model, stepping) as u32) == stepping,
{
    let v = fms_value(family, model, stepping);
    let hi: int = if family >= 0xf { family - 0xf } else { 0 };
    let lo: int = if family >= 0xf { 0xf } else { family as int };
    let mh: int = (model / 16) as int;
    let ml: int = (model % 16) as int;
    assert(v == hi * 0x10_0000 + mh * 0x1_0000 + lo * 0x100 + ml * 0x10 + stepping);
    assert(0 <= hi < 256 && 0 <= lo < 16 && 0 <= mh < 16 && 0 <= ml < 16);
    assert((v / 0x100) % 0x10 == lo && (v / 0x10_0000) % 0x100 == hi && (v / 0x1_0000) % 0x10 == mh
        && (v / 0x10) % 0x10 == ml && v % 0x10 == stepping && 0 <= v <= u32::MAX) by (nonlinear_arith)
        requires
            v == hi * 0x10_0000 + mh * 0x1_0000 + lo * 0x100 + ml * 0x10 + stepping,
            0 <= hi < 256,
            0 <= lo < 16,
            0 <= mh < 16,
            0 <= ml < 16,
            0 <= stepping < 16,
    ;
    assert(mh * 0x10 + ml == model);
}

/// Signature algorithm of a report; only ECDSA P-384 with SHA-384 (code 1)
/// is defined.
#[derive(Clone, Copy, Debug, PartialEq, Eq, Structural)]
pub enum SignatureAlgorithm {
    EcdsaP384WithSha384,
}

/// The algorithm a signature algorithm code names, or the error for an
/// unsupported code.
pub open spec fn signature_algorithm_of(value: u32) -> Result<SignatureAlgorithm, AttestationCoreErr> {
    if value == 1 {
        Ok(SignatureAlgorithm::EcdsaP384WithSha384)
    } else {
        Err(AttestationCoreErr::UnsupportedSignatureAlgo(value))
    }
}

impl TryFrom<u32> for SignatureAlgorithm {
    type Error = AttestationCoreErr;

    fn try_from(value: u32) -> (r: Result<Self, Self::Error>) {
        if value == 1 {
            Ok(SignatureAlgorithm::EcdsaP384WithSha384)
        } else {
            Err(AttestationCoreErr::UnsupportedSignatureAlgo(value))
        }
    }
}

impl vstd::std_specs::convert::TryFromSpecImpl<u32> for SignatureAlgorithm {
    open spec fn obeys_try_from_spec() -> bool {
        true
    }

    open spec fn try_from_spec(v: u32) -> Result<Self, Self::Error> {
        signature_algorithm_of(v)
    }
}

/// AMD SEV-SNP attestation report (SEV-SNP Firmware ABI Specification,
/// Table 21).
#[derive(Debug, Clone)]
pub struct Report {
    /// Version number of the report; the specification defines 2 or 3.
    pub version: u32,
    pub guest_svn: u32,
    pub policy: GuestPolicy,
    /// Guest ID parameter.
    pub family_id: [u8; 16],
    /// Guest ID parameter.
    pub image_id: [u8; 16],
    /// VMPL used to generate this report.
    pub vmpl: VMPL,
    /// The signature algorithm code, see [`SignatureAlgorithm`].
    pub signature_algo: u32,
    /// The current TCB, which may be rolled back to `committed_tcb`.
    pub current_tcb: [u8; 8],
    pub platform_info: PlatformInfo,
    pub key_usage_info: KeyUsageInfo,
    /// Reserved field at 0x4c, must be zero.
    pub _reserved0: u32,
    /// Guest-provided report data.
    pub report_data: [u8; 64],
    /// The measurement calculated at launch.
    pub measurement: [u8; 48],
    /// Data provided by the hypervisor at launch.
    pub host_data: [u8; 32],
    /// SHA-384 digest of the ID public key that signed the ID block.
    pub id_key_digest: [u8; 48],
    /// SHA-384 digest of the author public key that certified the ID key.
    pub author_key_digest: [u8; 48],
    /// Report ID of this guest.
    pub report_id: [u8; 32],
    /// Report ID of this guest's migration agent.
    pub report_id_ma: [u8; 32],
    /// Reported TCB version used to derive the VCEK that signed the report.
    pub reported_tcb: [u8; 8],
    /// Family ID; only meaningful from report version 3 on.
    pub cpuid_fam_id: u8,
    /// Model ID; only meaningful from report version 3 on.
    pub cpuid_mod_id: u8,
    /// Stepping; only meaningful from report version 3 on.
    pub cpuid_step: u8,
    /// Reserved; need not be zero.
    pub _reserved1: [u8; 21],
    /// Identifier unique to the chip, unless masked.
    pub chip_id: [u8; 64],
    /// The committed TCB.
    pub committed_tcb: [u8; 8],
    /// Current firmware build, minor and major ids.
    pub current: FirmwareVersion,
    /// Committed firmware build, minor and major ids.
    pub committed: FirmwareVersion,
    /// The current TCB at the time the guest was launched or imported.
    pub launch_tcb: [u8; 8],
    /// The verified mitigation vector at launch.
    pub launch_mitigation_vector: u64,
    /// The current verified mitigation vector.
    pub current_mitigation_vector: u64,
    /// Reserved; need not be zero.
    pub _reserved2: [u8; 152],
    pub signature: [u8; 512],
}

/// The four bytes of a firmware version, in wire order.
pub closed spec fn firmware_wire(v: FirmwareVersion) -> Seq<u8> {
    seq![v.build, v.minor, v.major, v._reserved]
}

/// Bytes 0..80 of the wire encoding.
pub closed spec fn wire_head(r: Report) -> Seq<u8> {
    spec_u32_to_le_bytes(r.version) + spec_u32_to_le_bytes(r.guest_svn) + spec_u64_to_le_bytes(
        r.policy.0,
    ) + r.family_id@ + r.image_id@ + spec_u32_to_le_bytes(vmpl_code(r.vmpl))
        + spec_u32_to_le_bytes(r.signature_algo) + r.current_tcb@ + spec_u64_to_le_bytes(
        r.platform_info.0,
    ) + spec_u32_to_le_bytes(r.key_usage_info.0) + spec_u32_to_le_bytes(r._reserved0)
}

/// Bytes 80..392 of the wire encoding.
pub closed spec fn wire_digests(r: Report) -> Seq<u8> {
    r.report_data@ + r.measurement@ + r.host_data@ + r.id_key_digest@ + r.author_key_digest@
        + r.report_id@ + r.report_id_ma@ + r.reported_tcb@
}

/// Bytes 392..496 of the wire encoding.
pub closed spec fn wire_chip(r: Report) -> Seq<u8> {
    seq![r.cpuid_fam_id, r.cpuid_mod_id, r.cpuid_step] + r._reserved1@ + r.chip_id@
        + r.committed_tcb@ + firmware_wire(r.current) + firmware_wire(r.committed)
}

/// Bytes 496..1184 of the wire encoding.
pub closed spec fn wire_tail(r: Report) -> Seq<u8> {
    r.launch_tcb@ + spec_u64_to_le_bytes(r.launch_mitigation_vector) + spec_u64_to_le_bytes(
        r.current_mitigation_vector,
    ) + r._reserved2@ + r.signature@
}

impl Report {
    /// The wire encoding of the report: every field in declaration order,
    /// integers little-endian, no padding.
    pub closed spec fn wire(self) -> Seq<u8> {
        wire_head(self) + wire_digests(self) + wire_chip(self) + wire_tail(self)
    }
}

proof fn lemma_head_fields(r: Report)
    ensures
        wire_head(r).len() == 80,
        wire_head(r).subrange(0, 4) == spec_u32_to_le_bytes(r.version),
        wire_head(r).subrange(4, 8) == spec_u32_to_le_bytes(r.guest_svn),
        wire_head(r).subrange(8, 16) == spec_u64_to_le_bytes(r.policy.0),
        wire_head(r).subrange(16, 32) == r.family_id@,
        wire_head(r).subrange(32, 48) == r.image_id@,
        wire_head(r).subrange(48, 52) == spec_u32_to_le_bytes(vmpl_code(r.vmpl)),
        wire_head(r).subrange(52, 56) == spec_u32_to_le_bytes(r.signature_algo),
        wire_head(r).subrange(56, 64) == r.current_tcb@,
        wire_head(r).subrange(64, 72) == spec_u64_to_le_bytes(r.platform_info.0),
        wire_head(r).subrange(72, 76) == spec_u32_to_le_bytes(r.key_usage_info.0),
        wire_head(r).subrange(76, 80) == spec_u32_to_le_bytes(r._reserved0),
{
    lemma_u32_le(r.version, seq![]);
    lemma_u32_le(r.guest_svn, seq![]);
    lemma_u64_le(r.policy.0, seq![]);
    lemma_u32_le(vmpl_code(r.vmpl), seq![]);
    lemma_u32_le(r.signature_algo, seq![]);
    lemma_u64_le(r.platform_info.0, seq![]);
    lemma_u32_le(r.key_usage_info.0, seq![]);
    lemma_u32_le(r._reserved0, seq![]);
    let h = wire_head(r);
    assert(h.subrange(0, 4) =~= spec_u32_to_le_bytes(r.version));
    assert(h.subrange(4, 8) =~= spec_u32_to_le_bytes(r.guest_svn));
    assert(h.subrange(8, 16) =~= spec_u64_to_le_bytes(r.policy.0));
    assert(h.subrange(16, 32) =~= r.family_id@);
    assert(h.subrange(32, 48) =~= r.image_id@);
    assert(h.subrange(48, 52) =~= spec_u32_to_le_bytes(vmpl_code(r.vmpl)));
    assert(h.subrange(52, 56) =~= spec_u32_to_le_bytes(r.signature_algo));
    assert(h.subrange(56, 64) =~= r.current_tcb@);
    assert(h.subrange(64, 72) =~= spec_u64_to_le_bytes(r.platform_info.0));
    assert(h.subrange(72, 76) =~= spec_u32_to_le_bytes(r.key_usage_info.0));
    assert(h.subrange(76, 80) =~= spec_u32_to_le_bytes(r._reserved0));
}

proof fn lemma_digest_fields(r: Report)
    ensures
        wire_digests(r).len() == 312,
        wire_digests(r).subrange(0, 64) == r.report_data@,
        wire_digests(r).subrange(64, 112) == r.measurement@,
        wire_digests(r).subrange(112, 144) == r.host_data@,
        wire_digests(r).subrange(144, 192) == r.id_key_digest@,
        wire_digests(r).subrange(192, 240) == r.author_key_digest@,
        wire_digests(r).subrange(240, 272) == r.report_id@,
        wire_digests(r).subrange(272, 304) == r.report_id_ma@,
        wire_digests(r).subrange(304, 312) == r.reported_tcb@,
{
    let d = wire_digests(r);
    assert(d.subrange(0, 64) =~= r.report_data@);
    assert(d.subrange(64, 112) =~= r.measurement@);
    assert(d.subrange(112, 144) =~= r.host_data@);
    assert(d.subrange(144, 192) =~= r.id_key_digest@);
    assert(d.subrange(192, 240) =~= r.author_key_digest@);
    assert(d.subrange(240, 272) =~= r.report_id@);
    assert(d.subrange(272, 304) =~= r.report_id_ma@);
    assert(d.subrange(304, 312) =~= r.reported_tcb@);
}

proof fn lemma_chip_fields(r: Report)
    ensures
        wire_chip(r).len() == 104,
        wire_chip(r)[0] == r.cpuid_fam_id,
        wire_chip(r)[1] == r.cpuid_mod_id,
        wire_chip(r)[2] == r.cpuid_step,
        wire_chip(r).subrange(3, 24) == r._reserved1@,
        wire_chip(r).subrange(24, 88) == r.chip_id@,
        wire_chip(r).subrange(88, 96) == r.committed_tcb@,
        wire_chip(r).subrange(96, 100) == firmware_wire(r.current),
        wire_chip(r).subrange(100, 104) == firmware_wire(r.committed),
{
    let c = wire_chip(r);
    assert(c.subrange(3, 24) =~= r._reserved1@);
    assert(c.subrange(24, 88) =~= r.chip_id@);
    assert(c.subrange(88, 96) =~= r.committed_tcb@);
    assert(c.subrange(96, 100) =~= firmware_wire(r.current));
    assert(c.subrange(100, 104) =~= firmware_wire(r.committed));
}

proof fn lemma_tail_fields(r: Report)
    ensures
        wire_tail(r).len() == 688,
        wire_tail(r).subrange(0, 8) == r.launch_tcb@,
        wire_tail(r).subrange(8, 16) == spec_u64_to_le_bytes(r.launch_mitigation_vector),
        wire_tail(r).subrange(16, 24) == spec_u64_to_le_bytes(r.current_mitigation_vector),
        wire_tail(r).subrange(24, 176) == r._reserved2@,
        wire_tail(r).subrange(176, 688) == r.signature@,
{
    lemma_u64_le(r.launch_mitigation_vector, seq![]);
    lemma_u64_le(r.current_mitigation_vector, seq![]);
    let t = wire_tail(r);
    assert(t.subrange(0, 8) =~= r.launch_tcb@);
    assert(t.subrange(8, 16) =~= spec_u64_to_le_bytes(r.launch_mitigation_vector));
    assert(t.subrange(16, 24) =~= spec_u64_to_le_bytes(r.current_mitigation_vector));
    assert(t.subrange(24, 176) =~= r._reserved2@);
    assert(t.subrange(176, 688) =~= r.signature@);
}

/// The encoding splits into its four groups at offsets 80, 392 and 496.
proof fn lemma_wire_split(r: Report)
    ensures
        r.wire().len() == REPORT_SIZE,
        r.wire().subrange(0, 80) == wire_head(r),
        r.wire().subrange(80, 392) == wire_digests(r),
        r.wire().subrange(392, 496) == wire_chip(r),
        r.wire().subrange(496, 1184) == wire_tail(r),
{
    lemma_head_fields(r);
    lemma_digest_fields(r);
    lemma_chip_fields(r);
    lemma_tail_fields(r);
    let w = r.wire();
    assert(w.subrange(0, 80) =~= wire_head(r));
    assert(w.subrange(80, 392) =~= wire_digests(r));
    assert(w.subrange(392, 496) =~= wire_chip(r));
    assert(w.subrange(496, 1184) =~= wire_tail(r));
}

/// Where each field stands in the wire encoding of a report (offsets of the
/// SEV-SNP Firmware ABI Specification, Table 21); integers little-endian.
pub proof fn lemma_wire_fields(r: Report)
    ensures
        r.wire().len() == REPORT_SIZE,
        u32_at(r.wire(), 0) == r.version,
        u32_at(r.wire(), 4) == r.guest_svn,
        u64_at(r.wire(), 8) == r.policy@,
        r.wire().subrange(16, 32) == r.family_id@,
        r.wire().subrange(32, 48) == r.image_id@,
        u32_at(r.wire(), 48) == vmpl_code(r.vmpl),
        u32_at(r.wire(), 52) == r.signature_algo,
        r.wire().subrange(56, 64) == r.current_tcb@,
        u64_at(r.wire(), 64) == r.platform_info.0,
        u32_at(r.wire(), 72) == r.key_usage_info@,
        u32_at(r.wire(), 76) == r._reserved0,
        r.wire().subrange(80, 144) == r.report_data@,
        r.wire().subrange(144, 192) == r.measurement@,
        r.wire().subrange(192, 224) == r.host_data@,
        r.wire().subrange(224, 272) == r.id_key_digest@,
        r.wire().subrange(272, 320) == r.author_key_digest@,
        r.wire().subrange(320, 352) == r.report_id@,
        r.wire().subrange(352, 384) == r.report_id_ma@,
        r.wire().subrange(384, 392) == r.reported_tcb@,
        r.wire()[392] == r.cpuid_fam_id,
        r.wire()[393] == r.cpuid_mod_id,
        r.wire()[394] == r.cpuid_step,
        r.wire().subrange(395, 416) == r._reserved1@,
        r.wire().subrange(416, 480) == r.chip_id@,
        r.wire().subrange(480, 488) == r.committed_tcb@,
        r.current@ == (r.wire()[488], r.wire()[489], r.wire()[490], r.wire()[491]),
        r.committed@ == (r.wire()[492], r.wire()[493], r.wire()[494], r.wire()[495]),
        r.wire().subrange(496, 504) == r.launch_tcb@,
        u64_at(r.wire(), 504) == r.launch_mitigation_vector,
        u64_at(r.wire(), 512) == r.current_mitigation_vector,
        r.wire().subrange(520, 672) == r._reserved2@,
        r.wire().subrange(672, 1184) == r.signature@,
{
    lemma_wire_split(r);
    lemma_head_fields(r);
    lemma_digest_fields(r);
    lemma_chip_fields(r);
    lemma_tail_fields(r);
    lemma_u32_le(r.version, seq![]);
    lemma_u32_le(r.guest_svn, seq![]);
    lemma_u64_le(r.policy.0, seq![]);
    lemma_u32_le(vmpl_code(r.vmpl), seq![]);
    lemma_u32_le(r.signature_algo, seq![]);
    lemma_u64_le(r.platform_info.0, seq![]);
    lemma_u32_le(r.key_usage_info.0, seq![]);
    lemma_u32_le(r._reserved0, seq![]);
    lemma_u64_le(r.launch_mitigation_vector, seq![]);
    lemma_u64_le(r.current_mitigation_vector, seq![]);
    let w = r.wire();
    let h = wire_head(r);
    let d = wire_digests(r);
    let c = wire_chip(r);
    let t = wire_tail(r);
    assert forall|a: int, b: int| 0 <= a <= b <= 80 implies #[trigger] w.subrange(a, b) == h.subrange(a, b) by {
        assert(w.subrange(a, b) =~= w.subrange(0, 80).subrange(a, b));
    }
    assert forall|a: int, b: int| 80 <= a <= b <= 392 implies #[trigger] w.subrange(a, b) == d.subrange(
        a - 80,
        b - 80,
    ) by {
        assert(w.subrange(a, b) =~= w.subrange(80, 392).subrange(a - 80, b - 80));
    }
    assert forall|a: int, b: int| 392 <= a <= b <= 496 implies #[trigger] w.subrange(a, b) == c.subrange(
        a - 392,
        b - 392,
    ) by {
        assert(w.subrange(a, b) =~= w.subrange(392, 496).subrange(a - 392, b - 392));
    }
    assert forall|a: int, b: int| 496 <= a <= b <= 1184 implies #[trigger] w.subrange(a, b) == t.subrange(
        a - 496,
        b - 496,
    ) by {
        assert(w.subrange(a, b) =~= w.subrange(496, 1184).subrange(a - 496, b - 496));
    }
    assert(w.subrange(0, 4) == h.subrange(0, 4));
    assert(w.subrange(4, 8) == h.subrange(4, 8));
    assert(w.subrange(8, 16) == h.subrange(8, 16));
    assert(w.subrange(16, 32) == h.subrange(16, 32));
    assert(w.subrange(32, 48) == h.subrange(32, 48));
    assert(w.subrange(48, 52) == h.subrange(48, 52));
    assert(w.subrange(52, 56) == h.subrange(52, 56));
    assert(w.subrange(56, 64) == h.subrange(56, 64));
    assert(w.subrange(64, 72) == h.subrange(64, 72));
    assert(w.subrange(72, 76) == h.subrange(72, 76));
    assert(w.subrange(76, 80) == h.subrange(76, 80));
    assert(w.subrange(80, 144) == d.subrange(0, 64));
    assert(w.subrange(144, 192) == d.subrange(64, 112));
    assert(w.subrange(192, 224) == d.subrange(112, 144));
    assert(w.subrange(224, 272) == d.subrange(144, 192));
    assert(w.subrange(272, 320) == d.subrange(192, 240));
    assert(w.subrange(320, 352) == d.subrange(240, 272));
    assert(w.subrange(352, 384) == d.subrange(272, 304));
    assert(w.subrange(384, 392) == d.subrange(304, 312));
    assert(w.subrange(392, 496) == c);
    assert(w[392] == w.subrange(392, 496)[0]);
    assert(w[393] == w.subrange(392, 496)[1]);
    assert(w[394] == w.subrange(392, 496)[2]);
    assert(w.subrange(395, 416) == c.subrange(3, 24));
    assert(w.subrange(416, 480) == c.subrange(24, 88));
    assert(w.subrange(480, 488) == c.subrange(88, 96));
    assert(w.subrange(488, 492) == c.subrange(96, 100));
    assert(w.subrange(492, 496) == c.subrange(100, 104));
    let fc = w.subrange(488, 492);
    let fm = w.subrange(492, 496);
    assert(fc[0] == w[488] && fc[1] == w[489] && fc[2] == w[490] && fc[3] == w[491]);
    assert(fm[0] == w[492] && fm[1] == w[493] && fm[2] == w[494] && fm[3] == w[495]);
    assert(w.subrange(496, 504) == t.subrange(0, 8));
    assert(w.subrange(504, 512) == t.subrange(8, 16));
    assert(w.subrange(512, 520) == t.subrange(16, 24));
    assert(w.subrange(520, 672) == t.subrange(24, 176));
    assert(w.subrange(672, 1184) == t.subrange(176, 688));
}

/// The VMPL of a report is the level whose number stands, little-endian,
/// at offset 48 of its encoding: 0 is VMPL0, 3 is VMPL3, all ones the host.
pub proof fn lemma_report_vmpl(r: Report)
    ensures
        (u32_at(r.wire(), 48) == 0) == (r.vmpl == VMPL::ZERO),
        (u32_at(r.wire(), 48) == 1) == (r.vmpl == VMPL::ONE),
        (u32_at(r.wire(), 48) == 2) == (r.vmpl == VMPL::TWO),
        (u32_at(r.wire(), 48) == 3) == (r.vmpl == VMPL::THREE),
        (u32_at(r.wire(), 48) == 0xffff_ffff) == (r.vmpl == VMPL::HOST),
{
    lemma_wire_fields(r);
    lemma_vmpl_codes(r.vmpl, r.vmpl);
}

proof fn lemma_u32_bytes_injective(a: u32, b: u32)
    requires
        spec_u32_to_le_bytes(a) == spec_u32_to_le_bytes(b),
    ensures
        a == b,
{
    lemma_u32_le(a, seq![]);
    lemma_u32_le(b, seq![]);
}

proof fn lemma_u64_bytes_injective(a: u64, b: u64)
    requires
        spec_u64_to_le_bytes(a) == spec_u64_to_le_bytes(b),
    ensures
        a == b,
{
    lemma_u64_le(a, seq![]);
    lemma_u64_le(b, seq![]);
}

/// Two reports with the same wire encoding are the same report: the encoding
/// loses nothing.
pub proof fn lemma_wire_injective(r1: Report, r2: Report)
    requires
        r1.wire() == r2.wire(),
    ensures
        r1 == r2,
{
    broadcast use vstd::array::axiom_array_ext_equal;
    lemma_wire_split(r1);
    lemma_wire_split(r2);
    lemma_head_fields(r1);
    lemma_head_fields(r2);
    lemma_digest_fields(r1);
    lemma_digest_fields(r2);
    lemma_chip_fields(r1);
    lemma_chip_fields(r2);
    lemma_tail_fields(r1);
    lemma_tail_fields(r2);
    lemma_u32_bytes_injective(r1.version, r2.version);
    lemma_u32_bytes_injective(r1.guest_svn, r2.guest_svn);
    lemma_u64_bytes_injective(r1.policy.0, r2.policy.0);
    lemma_u32_bytes_injective(vmpl_code(r1.vmpl), vmpl_code(r2.vmpl));
    lemma_u32_bytes_injective(r1.signature_algo, r2.signature_algo);
    lemma_u64_bytes_injective(r1.platform_info.0, r2.platform_info.0);
    lemma_u32_bytes_injective(r1.key_usage_info.0, r2.key_usage_info.0);
    lemma_u32_bytes_injective(r1._reserved0, r2._reserved0);
    lemma_u64_bytes_injective(r1.launch_mitigation_vector, r2.launch_mitigation_vector);
    lemma_u64_bytes_injective(r1.current_mitigation_vector, r2.current_mitigation_vector);
    assert(r1.family_id =~= r2.family_id);
    assert(r1.image_id =~= r2.image_id);
    assert(r1.current_tcb =~= r2.current_tcb);
    assert(r1.report_data =~= r2.report_data);
    assert(r1.measurement =~= r2.measurement);
    assert(r1.host_data =~= r2.host_data);
    assert(r1.id_key_digest =~= r2.id_key_digest);
    assert(r1.author_key_digest =~= r2.author_key_digest);
    assert(r1.report_id =~= r2.report_id);
    assert(r1.report_id_ma =~= r2.report_id_ma);
    assert(r1.reported_tcb =~= r2.reported_tcb);
    assert(r1._reserved1 =~= r2._reserved1);
    assert(r1.chip_id =~= r2.chip_id);
    assert(r1.committed_tcb =~= r2.committed_tcb);
    assert(r1.launch_tcb =~= r2.launch_tcb);
    assert(r1._reserved2 =~= r2._reserved2);
    assert(r1.signature =~= r2.signature);
    assert(firmware_wire(r1.current)[0] == firmware_wire(r2.current)[0]);
    assert(firmware_wire(r1.current)[1] == firmware_wire(r2.current)[1]);
    assert(firmware_wire(r1.current)[2] == firmware_wire(r2.current)[2]);
    assert(firmware_wire(r1.current)[3] == firmware_wire(r2.current)[3]);
    assert(firmware_wire(r1.committed)[0] == firmware_wire(r2.committed)[0]);
    assert(firmware_wire(r1.committed)[1] == firmware_wire(r2.committed)[1]);
    assert(firmware_wire(r1.committed)[2] == firmware_wire(r2.committed)[2]);
    assert(firmware_wire(r1.committed)[3] == firmware_wire(r2.committed)[3]);
    assert(wire_chip(r1)[0] == wire_chip(r2)[0]);
    assert(wire_chip(r1)[1] == wire_chip(r2)[1]);
    assert(wire_chip(r1)[2] == wire_chip(r2)[2]);
}

/// The report whose wire encoding is `data`, when the VMPL code in it names a
/// level.
proof fn lemma_wire_from_fields(r: Report, d: Seq<u8>)
    requires
        d.len() == REPORT_SIZE,
        r.version == u32_at(d, 0),
        r.guest_svn == u32_at(d, 4),
        r.policy.0 == u64_at(d, 8),
        r.family_id@ == d.subrange(16, 32),
        r.image_id@ == d.subrange(32, 48),
        vmpl_code(r.vmpl) == u32_at(d, 48),
        r.signature_algo == u32_at(d, 52),
        r.current_tcb@ == d.subrange(56, 64),
        r.platform_info.0 == u64_at(d, 64),
        r.key_usage_info.0 == u32_at(d, 72),
        r._reserved0 == u32_at(d, 76),
        r.report_data@ == d.subrange(80, 144),
        r.measurement@ == d.subrange(144, 192),
        r.host_data@ == d.subrange(192, 224),
        r.id_key_digest@ == d.subrange(224, 272),
        r.author_key_digest@ == d.subrange(272, 320),
        r.report_id@ == d.subrange(320, 352),
        r.report_id_ma@ == d.subrange(352, 384),
        r.reported_tcb@ == d.subrange(384, 392),
        r.cpuid_fam_id == d[392],
        r.cpuid_mod_id == d[393],
        r.cpuid_step == d[394],
        r._reserved1@ == d.subrange(395, 416),
        r.chip_id@ == d.subrange(416, 480),
        r.committed_tcb@ == d.subrange(480, 488),
        firmware_wire(r.current) == d.subrange(488, 492),
        firmware_wire(r.committed) == d.subrange(492, 496),
        r.launch_tcb@ == d.subrange(496, 504),
        r.launch_mitigation_vector == u64_at(d, 504),
        r.current_mitigation_vector == u64_at(d, 512),
        r._reserved2@ == d.subrange(520, 672),
        r.signature@ == d.subrange(672, 1184),
    ensures
        r.wire() == d,
{
    lemma_u32_le(0, d.subrange(0, 4));
    lemma_u32_le(0, d.subrange(4, 8));
    lemma_u64_le(0, d.subrange(8, 16));
    lemma_u32_le(0, d.subrange(48, 52));
    lemma_u32_le(0, d.subrange(52, 56));
    lemma_u64_le(0, d.subrange(64, 72));
    lemma_u32_le(0, d.subrange(72, 76));
    lemma_u32_le(0, d.subrange(76, 80));
    lemma_u64_le(0, d.subrange(504, 512));
    lemma_u64_le(0, d.subrange(512, 520));
    assert(wire_head(r) == d.subrange(0, 4) + d.subrange(4, 8) + d.subrange(8, 16) + d.subrange(
        16,
        32,
    ) + d.subrange(32, 48) + d.subrange(48, 52) + d.subrange(52, 56) + d.subrange(56, 64)
        + d.subrange(64, 72) + d.subrange(72, 76) + d.subrange(76, 80));
    assert(wire_head(r) =~= d.subrange(0, 80));
    assert(wire_digests(r) =~= d.subrange(80, 392));
    assert(wire_chip(r) == seq![d[392], d[393], d[394]] + d.subrange(395, 416) + d.subrange(
        416,
        480,
    ) + d.subrange(480, 488) + d.subrange(488, 492) + d.subrange(492, 496));
    assert(wire_chip(r) =~= d.subrange(392, 496));
    assert(wire_tail(r) == d.subrange(496, 504) + d.subrange(504, 512) + d.subrange(512, 520)
        + d.subrange(520, 672) + d.subrange(672, 1184));
    assert(wire_tail(r) =~= d.subrange(496, 1184));
    assert(r.wire() =~= d);
}

impl Report {
    /// The report that a request to the guest device produced, judged as
    /// [`request_guest_report`] does: `exchange` is `None` when no guest
    /// device exists, else the outcome of the exchange with it.
    pub fn request(exchange: Option<Result<ReportResponse, SevGuestErr>>) -> (r: Result<Report, AttestationCoreErr>)
        ensures
            guest_report_outcome(exchange, r),
    {
        request_guest_report(exchange)
    }
}

/// The message of the error for a report whose VMPL field names no level.
pub open spec fn unknown_vmpl_text() -> Seq<char> {
    "VMPL code in the report names no VMPL level"@
}

impl Report {
    /// Reads a report from its wire encoding; fails if `data` is not exactly
    /// [`REPORT_SIZE`] bytes, or if the VMPL code at offset 48 names no level.
    pub fn try_from_slice(data: &[u8]) -> (res: Result<Self, AttestationCoreErr>)
        ensures
            data@.len() != REPORT_SIZE ==> res == Err::<Report, AttestationCoreErr>(
                AttestationCoreErr::InvalidBufferSize(REPORT_SIZE, data@.len() as usize),
            ),
            data@.len() == REPORT_SIZE ==> (res is Ok <==> is_vmpl_code(u32_at(data@, 48))),
            data@.len() == REPORT_SIZE && !is_vmpl_code(u32_at(data@, 48)) ==> (res matches Err(
                AttestationCoreErr::ReportVerificationError(m),
            ) && m@ == unknown_vmpl_text()),
            res matches Ok(r) ==> r.wire() == data@,
    {
        if data.len() != REPORT_SIZE {
            return Err(AttestationCoreErr::InvalidBufferSize(REPORT_SIZE, data.len()));
        }
        let vmpl = match VMPL::from_code(read_u32(data, 48)) {
            Some(v) => v,
            None => {
                return Err(
                    AttestationCoreErr::ReportVerificationError(
                        "VMPL code in the report names no VMPL level".to_owned(),
                    ),
                );
            },
        };
        let r = Report {
            version: read_u32(data, 0),
            guest_svn: read_u32(data, 4),
            policy: GuestPolicy(read_u64(data, 8)),
            family_id: read_array(data, 16),
            image_id: read_array(data, 32),
            vmpl,
            signature_algo: read_u32(data, 52),
            current_tcb: read_array(data, 56),
            platform_info: PlatformInfo(read_u64(data, 64)),
            key_usage_info: KeyUsageInfo(read_u32(data, 72)),
            _reserved0: read_u32(data, 76),
            report_data: read_array(data, 80),
            measurement: read_array(data, 144),
            host_data: read_array(data, 192),
            id_key_digest: read_array(data, 224),
            author_key_digest: read_array(data, 272),
            report_id: read_array(data, 320),
            report_id_ma: read_array(data, 352),
            reported_tcb: read_array(data, 384),
            cpuid_fam_id: data[392],
            cpuid_mod_id: data[393],
            cpuid_step: data[394],
            _reserved1: read_array(data, 395),
            chip_id: read_array(data, 416),
            committed_tcb: read_array(data, 480),
            current: FirmwareVersion {
                build: data[488],
                minor: data[489],
                major: data[490],
                _reserved: data[491],
            },
            committed: FirmwareVersion {
                build: data[492],
                minor: data[493],
                major: data[494],
                _reserved: data[495],
            },
            launch_tcb: read_array(data, 496),
            launch_mitigation_vector: read_u64(data, 504),
            current_mitigation_vector: read_u64(data, 512),
            _reserved2: read_array(data, 520),
            signature: read_array(data, 672),
        };
        proof {
            assert(firmware_wire(r.current) =~= data@.subrange(488, 492));
            assert(firmware_wire(r.committed) =~= data@.subrange(492, 496));
            lemma_wire_from_fields(r, data@);
        }
        Ok(r)
    }

    /// The wire encoding of the report.
    pub fn as_slice(&self) -> (out: Vec<u8>)
        ensures
            out@ == self.wire(),
    {
        let mut out: Vec<u8> = Vec::new();
        self.write(&mut out);
        assert(out@ =~= self.wire());
        out
    }

    /// Appends the wire encoding of the report to `out`.
    pub fn write(&self, out: &mut Vec<u8>)
        ensures
            final(out)@ == old(out)@ + self.wire(),
    {
        let ghost start = out@;
        push_u32(out, self.version);
        push_u32(out, self.guest_svn);
        push_u64(out, self.policy.0);
        push_bytes(out, self.family_id.as_slice());
        push_bytes(out, self.image_id.as_slice());
        push_u32(out, self.vmpl.code());
        push_u32(out, self.signature_algo);
        push_bytes(out, self.current_tcb.as_slice());
        push_u64(out, self.platform_info.0);
        push_u32(out, self.key_usage_info.0);
        push_u32(out, self._reserved0);
        assert(out@ =~= start + wire_head(*self));
        let ghost after_head = out@;
        push_bytes(out, self.report_data.as_slice());
        push_bytes(out, self.measurement.as_slice());
        push_bytes(out, self.host_data.as_slice());
        push_bytes(out, self.id_key_digest.as_slice());
        push_bytes(out, self.author_key_digest.as_slice());
        push_bytes(out, self.report_id.as_slice());
        push_bytes(out, self.report_id_ma.as_slice());
        push_bytes(out, self.reported_tcb.as_slice());
        assert(out@ =~= after_head + wire_digests(*self));
        let ghost after_digests = out@;
        out.push(self.cpuid_fam_id);
        out.push(self.cpuid_mod_id);
        out.push(self.cpuid_step);
        push_bytes(out, self._reserved1.as_slice());
        push_bytes(out, self.chip_id.as_slice());
        push_bytes(out, self.committed_tcb.as_slice());
        out.push(self.current.build);
        out.push(self.current.minor);
        out.push(self.current.major);
        out.push(self.current._reserved);
        out.push(self.committed.build);
        out.push(self.committed.minor);
        out.push(self.committed.major);
        out.push(self.committed._reserved);
        assert(out@ =~= after_digests + wire_chip(*self));
        let ghost after_chip = out@;
        push_bytes(out, self.launch_tcb.as_slice());
        push_u64(out, self.launch_mitigation_vector);
        push_u64(out, self.current_mitigation_vector);
        push_bytes(out, self._reserved2.as_slice());
        push_bytes(out, self.signature.as_slice());
        assert(out@ =~= after_chip + wire_tail(*self));
        assert(out@ =~= start + self.wire());
    }
}

/// The message of the error for a CPUID value that cannot be formed.
pub open spec fn cpuid_error_text(family: u8, model: u8, step: u8) -> Seq<char> {
    "Unable to get cpuid from family: 0x"@ + hex(family as nat) + ", model: 0x"@ + hex(model as nat)
        + ", step: 0x"@ + hex(step as nat)
}

/// `format!` of the CPUID error message. Claimed: the numbers are written
/// in lower-case hexadecimal without leading zeros, as `{:x}` writes them.
#[verifier::external_body]
fn cpuid_error_message(family: u8, model: u8, step: u8) -> (r: String)
    ensures
        r@ == cpuid_error_text(family, model, step),
{
    format!(
        "Unable to get cpuid from family: 0x{:x}, model: 0x{:x}, step: 0x{:x}",
        family,
        model,
        step,
    )
}

/// The bytes of every report decode to that same report: its encoding has
/// the report size, carries a valid VMPL code, and any report with the same
/// encoding is this report.
pub proof fn lemma_serialize_then_parse(r: Report)
    ensures
        r.wire().len() == REPORT_SIZE,
        is_vmpl_code(u32_at(r.wire(), 48)),
        forall|r2: Report| #[trigger] r2.wire() == r.wire() ==> r2 == r,
{
    lemma_wire_split(r);
    lemma_head_fields(r);
    assert(r.wire().subrange(48, 52) =~= wire_head(r).subrange(48, 52));
    lemma_u32_le(vmpl_code(r.vmpl), seq![]);
    assert forall|r2: Report| #[trigger] r2.wire() == r.wire() implies r2 == r by {
        lemma_wire_injective(r2, r);
    }
}

impl Report {
    pub fn version(&self) -> (r: u32)
        ensures
            r == self.version,
    {
        self.version
    }

    /// The chip id, unless the key usage bits mask it.
    pub fn chip_id(&self) -> (r: Option<&[u8; 64]>)
        ensures
            r == (if !bit32(self.key_usage_info@, 1) {
                Some(&self.chip_id)
            } else {
                None
            }),
    {
        if !self.key_usage_info.mask_chip_key() {
            Some(&self.chip_id)
        } else {
            None
        }
    }

    pub fn policy(&self) -> (r: &GuestPolicy)
        ensures
            *r == self.policy,
    {
        &self.policy
    }

    pub fn report_data(&self) -> (r: &[u8; 64])
        ensures
            *r == self.report_data,
    {
        &self.report_data
    }

    pub fn host_data(&self) -> (r: &[u8; 32])
        ensures
            *r == self.host_data,
    {
        &self.host_data
    }

    pub fn current_raw_tcb(&self) -> (r: [u8; 8])
        ensures
            r == self.current_tcb,
    {
        self.current_tcb
    }

    pub fn reported_raw_tcb(&self) -> (r: [u8; 8])
        ensures
            r == self.reported_tcb,
    {
        self.reported_tcb
    }

    pub fn committed_raw_tcb(&self) -> (r: [u8; 8])
        ensures
            r == self.committed_tcb,
    {
        self.committed_tcb
    }

    pub fn launch_raw_tcb(&self) -> (r: [u8; 8])
        ensures
            r == self.launch_tcb,
    {
        self.launch_tcb
    }

    pub fn launch_mitigation_vector(&self) -> (r: u64)
        ensures
            r == self.launch_mitigation_vector,
    {
        self.launch_mitigation_vector
    }

    pub fn current_mitigation_vector(&self) -> (r: u64)
        ensures
            r == self.current_mitigation_vector,
    {
        self.current_mitigation_vector
    }

    pub fn vmpl(&self) -> (r: &VMPL)
        ensures
            *r == self.vmpl,
    {
        &self.vmpl
    }

    pub fn guest_svn(&self) -> (r: u32)
        ensures
            r == self.guest_svn,
    {
        self.guest_svn
    }

    /// The CPUID family id; reports before version 3 do not carry it.
    pub fn cpuid_fam_id(&self) -> (r: Result<u8, AttestationCoreErr>)
        ensures
            r is Err <==> self.version <= 2,
            r matches Ok(v) ==> v == self.cpuid_fam_id,
            r matches Err(e) ==> e matches AttestationCoreErr::ReportVerificationError(m)
                && m@ == "CPUID Family ID is not supported for this report version"@,
    {
        if self.version <= 2 {
            return Err(
                AttestationCoreErr::ReportVerificationError(
                    "CPUID Family ID is not supported for this report version".to_owned(),
                ),
            );
        }
        Ok(self.cpuid_fam_id)
    }

    /// The CPUID model id; reports before version 3 do not carry it.
    pub fn cpuid_mod_id(&self) -> (r: Result<u8, AttestationCoreErr>)
        ensures
            r is Err <==> self.version <= 2,
            r matches Ok(v) ==> v == self.cpuid_mod_id,
            r matches Err(e) ==> e matches AttestationCoreErr::ReportVerificationError(m)
                && m@ == "CPUID Model ID is not supported for this report version"@,
    {
        if self.version <= 2 {
            return Err(
                AttestationCoreErr::ReportVerificationError(
                    "CPUID Model ID is not supported for this report version".to_owned(),
                ),
            );
        }
        Ok(self.cpuid_mod_id)
    }

    /// The CPUID stepping; reports before version 3 do not carry it.
    pub fn cpuid_step(&self) -> (r: Result<u8, AttestationCoreErr>)
        ensures
            r is Err <==> self.version <= 2,
            r matches Ok(v) ==> v == self.cpuid_step,
            r matches Err(e) ==> e matches AttestationCoreErr::ReportVerificationError(m)
                && m@ == "CPUID Step is not supported for this report version"@,
    {
        if self.version <= 2 {
            return Err(
                AttestationCoreErr::ReportVerificationError(
                    "CPUID Step is not supported for this report version".to_owned(),
                ),
            );
        }
        Ok(self.cpuid_step)
    }

    /// The CPUID value of the reported family, model and stepping; fails for
    /// reports before version 3, and when the stepping exceeds 0xf.
    pub fn cpuid(&self) -> (r: Result<CpuId, AttestationCoreErr>)
        ensures
            r is Ok <==> (self.version > 2 && self.cpuid_step <= 0xf),
            r matches Ok(c) ==> c.0 == fms_value(self.cpuid_fam_id, self.cpuid_mod_id, self.cpuid_step),
            self.version <= 2 ==> (r matches Err(AttestationCoreErr::ReportVerificationError(m))
                && m@ == "CPUID Family ID is not supported for this report version"@),
            r is Err ==> r matches Err(AttestationCoreErr::ReportVerificationError(_)),
            self.version > 2 && self.cpuid_step > 0xf ==> (r matches Err(
                AttestationCoreErr::ReportVerificationError(m),
            ) && m@ == cpuid_error_text(self.cpuid_fam_id, self.cpuid_mod_id, self.cpuid_step)),
    {
        let family = self.cpuid_fam_id()?;
        let model = self.cpuid_mod_id()?;
        let step = self.cpuid_step()?;
        match CpuId::from_fms(family, model, step) {
            Some(cpuid) => Ok(cpuid),
            None => Err(
                AttestationCoreErr::ReportVerificationError(cpuid_error_message(family, model, step)),
            ),
        }
    }

    /// The signature algorithm named by the report.
    pub fn signature_algorithm(&self) -> (r: Result<SignatureAlgorithm, AttestationCoreErr>)
        ensures
            r == signature_algorithm_of(self.signature_algo),
    {
        match SignatureAlgorithm::try_from(self.signature_algo) {
            Ok(alg) => Ok(alg),
            Err(_) => Err(AttestationCoreErr::UnsupportedSignatureAlgo(self.signature_algo)),
        }
    }

    /// The measurement claimed by the report.
    pub fn claimed_measurement(&self) -> (r: &[u8; 48])
        ensures
            *r == self.measurement,
    {
        &self.measurement
    }
}

} // verus!
