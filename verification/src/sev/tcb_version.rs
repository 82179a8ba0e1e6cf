//! The TCB version of an SEV-SNP platform and its partial order.

use vstd::prelude::*;

use core::cmp::Ordering;

verus! {

/// Security patch levels of the firmware components of an SEV-SNP platform.
#[derive(Debug, Clone, PartialEq, Eq, Structural)]
pub struct TCBVersion {
    /// SPL of the FMC firmware; only present on Turin platforms.
    pub fmc: Option<u8>,
    /// Boot loader version.
    pub boot_loader: u8,
    /// Trusted execution environment version.
    pub tee: u8,
    /// SNP firmware version.
    pub snp: u8,
    /// CPU microcode version.
    pub microcode: u8,
}

/// The components of a TCB version in the order they are compared.
pub open spec fn tcb_components(t: TCBVersion) -> Seq<Option<u8>> {
    seq![Some(t.boot_loader), Some(t.tee), Some(t.snp), Some(t.microcode), t.fmc]
}

/// One component is at most the other: both absent, or both present and
/// ordered.
pub open spec fn component_le(x: Option<u8>, y: Option<u8>) -> bool {
    match (x, y) {
        (Some(a), Some(b)) => a <= b,
        (None, None) => true,
        _ => false,
    }
}

/// Every component of `a` is at most the matching component of `b`; the
/// versions belong to the same architecture (both have an FMC level, or
/// neither has).
pub open spec fn tcb_le(a: TCBVersion, b: TCBVersion) -> bool {
    &&& a.boot_loader <= b.boot_loader
    &&& a.tee <= b.tee
    &&& a.snp <= b.snp
    &&& a.microcode <= b.microcode
    &&& component_le(a.fmc, b.fmc)
}

/// The partial order of TCB versions: componentwise, and undefined between
/// versions of different architectures.
pub open spec fn tcb_order(a: TCBVersion, b: TCBVersion) -> Option<Ordering> {
    if a.fmc.is_some() != b.fmc.is_some() {
        None
    } else if a == b {
        Some(Ordering::Equal)
    } else if tcb_le(a, b) {
        Some(Ordering::Less)
    } else if tcb_le(b, a) {
        Some(Ordering::Greater)
    } else {
        None
    }
}

/// The same comparison seen from the other side.
pub open spec fn reversed(o: Option<Ordering>) -> Option<Ordering> {
    match o {
        Some(Ordering::Less) => Some(Ordering::Greater),
        Some(Ordering::Greater) => Some(Ordering::Less),
        _ => o,
    }
}

impl TCBVersion {
    pub fn new(boot_loader: u8, tee: u8, snp: u8, microcode: u8, fmc: Option<u8>) -> (t: Self)
        ensures
            t == (TCBVersion { fmc, boot_loader, tee, snp, microcode }),
    {
        TCBVersion { boot_loader, tee, snp, microcode, fmc }
    }

    /// The components in comparison order.
    fn as_iter(&self) -> (v: Vec<Option<u8>>)
        ensures
            v@ == tcb_components(*self),
    {
        let v = vec![Some(self.boot_loader), Some(self.tee), Some(self.snp), Some(self.microcode), self.fmc];
        assert(v@ =~= tcb_components(*self));
        v
    }

    pub fn fmc(&self) -> (r: Option<u8>)
        ensures
            r == self.fmc,
    {
        self.fmc
    }

    pub fn boot_loader(&self) -> (r: u8)
        ensures
            r == self.boot_loader,
    {
        self.boot_loader
    }

    pub fn tee(&self) -> (r: u8)
        ensures
            r == self.tee,
    {
        self.tee
    }

    pub fn snp(&self) -> (r: u8)
        ensures
            r == self.snp,
    {
        self.snp
    }

    pub fn microcode(&self) -> (r: u8)
        ensures
            r == self.microcode,
    {
        self.microcode
    }
}

/// Compares two components of the same presence.
fn compare_component(x: Option<u8>, y: Option<u8>) -> (o: Ordering)
    requires
        x.is_some() == y.is_some(),
    ensures
        (o == Ordering::Equal) == (x == y),
        (o == Ordering::Less) == (component_le(x, y) && x != y),
        (o == Ordering::Greater) == (component_le(y, x) && x != y),
{
    match (x, y) {
        (Some(a), Some(b)) => {
            if a < b {
                Ordering::Less
            } else if a == b {
                Ordering::Equal
            } else {
                Ordering::Greater
            }
        },
        _ => Ordering::Equal,
    }
}

impl PartialOrd for TCBVersion {
    /// Componentwise comparison; `None` between versions of different
    /// architectures or when components disagree in direction.
    fn partial_cmp(&self, other: &Self) -> (r: Option<Ordering>)
        ensures
            r == tcb_order(*self, *other),
    {
        let a = self.as_iter();
        let b = other.as_iter();
        let ghost sa = tcb_components(*self);
        let ghost sb = tcb_components(*other);
        let mut cmp_combined = Ordering::Equal;
        let mut i: usize = 0;
        let ghost mut gi: int = 0;
        while i < 5
            invariant
                gi == i,
                a@ == sa,
                b@ == sb,
                sa == tcb_components(*self),
                sb == tcb_components(*other),
                0 <= i <= 5,
                forall|j: int| 0 <= j < i ==> sa[j].is_some() == sb[j].is_some(),
                cmp_combined == Ordering::Equal ==> forall|j: int| 0 <= j < i ==> sa[j] == sb[j],
                cmp_combined == Ordering::Less ==> (forall|j: int|
                    0 <= j < i ==> component_le(sa[j], sb[j])) && (exists|j: int|
                    0 <= j < i && sa[j] != sb[j]),
                cmp_combined == Ordering::Greater ==> (forall|j: int|
                    0 <= j < i ==> component_le(sb[j], sa[j])) && (exists|j: int|
                    0 <= j < i && sa[j] != sb[j]),
            decreases 5 - i,
        {
            let x = a[i];
            let y = b[i];
            if x.is_some() != y.is_some() {
                proof {
                    assert(self.fmc.is_some() != other.fmc.is_some());
                }
                return None;
            }
            let cmp_current = compare_component(x, y);
            match (cmp_combined, cmp_current) {
                (Ordering::Equal, _) => {
                    cmp_combined = cmp_current;
                },
                (Ordering::Greater, Ordering::Less) | (Ordering::Less, Ordering::Greater) => {
                    proof {
                        assert(!tcb_le(*self, *other)) by {
                            if cmp_combined == Ordering::Greater {
                                let j = choose|j: int| 0 <= j < i && sa[j] != sb[j];
                                assert(component_le(sb[j], sa[j]));
                                assert(!component_le(sa[j], sb[j]));
                            } else {
                                assert(!component_le(sa[gi], sb[gi]));
                            }
                        }
                        assert(!tcb_le(*other, *self)) by {
                            if cmp_combined == Ordering::Less {
                                let j = choose|j: int| 0 <= j < i && sa[j] != sb[j];
                                assert(component_le(sa[j], sb[j]));
                                assert(!component_le(sb[j], sa[j]));
                            } else {
                                assert(!component_le(sb[gi], sa[gi]));
                            }
                        }
                    }
                    return None;
                },
                _ => {},
            }
            i = i + 1;
            proof {
                gi = gi + 1;
            }
        }
        proof {
            assert(self.fmc.is_some() == other.fmc.is_some()) by {
                assert(sa[4].is_some() == sb[4].is_some());
            }
            if cmp_combined == Ordering::Equal {
                assert(sa[0] == sb[0] && sa[1] == sb[1] && sa[2] == sb[2] && sa[3] == sb[3]
                    && sa[4] == sb[4]);
            } else if cmp_combined == Ordering::Less {
                assert(component_le(sa[0], sb[0]) && component_le(sa[1], sb[1]) && component_le(
                    sa[2],
                    sb[2],
                ) && component_le(sa[3], sb[3]) && component_le(sa[4], sb[4]));
                assert(*self != *other);
            } else {
                assert(component_le(sb[0], sa[0]) && component_le(sb[1], sa[1]) && component_le(
                    sb[2],
                    sa[2],
                ) && component_le(sb[3], sa[3]) && component_le(sb[4], sa[4]));
                assert(*self != *other);
                let j = choose|j: int| 0 <= j < 5 && sa[j] != sb[j];
                assert(!component_le(sa[j], sb[j]));
            }
        }
        Some(cmp_combined)
    }
}

impl vstd::std_specs::cmp::PartialOrdSpecImpl for TCBVersion {
    open spec fn obeys_partial_cmp_spec() -> bool {
        true
    }

    open spec fn partial_cmp_spec(&self, other: &Self) -> Option<Ordering> {
        tcb_order(*self, *other)
    }
}

/// Every TCB version is equal to itself.
pub proof fn lemma_tcb_order_reflexive(a: TCBVersion)
    ensures
        tcb_order(a, a) == Some(Ordering::Equal),
{
}

/// Two versions compare equal exactly when they are the same version.
pub proof fn lemma_tcb_order_equal(a: TCBVersion, b: TCBVersion)
    ensures
        (tcb_order(a, b) == Some(Ordering::Equal)) == (a == b),
{
}

/// Comparing the other way round gives the reversed answer.
pub proof fn lemma_tcb_order_dual(a: TCBVersion, b: TCBVersion)
    ensures
        tcb_order(b, a) == reversed(tcb_order(a, b)),
{
}

/// "At most" is transitive, and so is "strictly below".
pub proof fn lemma_tcb_order_transitive(a: TCBVersion, b: TCBVersion, c: TCBVersion)
    ensures
        (tcb_order(a, b) matches Some(Ordering::Less | Ordering::Equal)) && (tcb_order(
            b,
            c,
        ) matches Some(Ordering::Less | Ordering::Equal)) ==> tcb_order(a, c) matches Some(
            Ordering::Less | Ordering::Equal,
        ),
        tcb_order(a, b) == Some(Ordering::Less) && tcb_order(b, c) == Some(Ordering::Less)
            ==> tcb_order(a, c) == Some(Ordering::Less),
{
    if tcb_order(a, b) == Some(Ordering::Less) && tcb_order(b, c) == Some(Ordering::Less) {
        if a == c {
            assert(tcb_le(b, a));
            assert(b == a);
        }
    }
}

/// A defined comparison in either direction means the versions belong to the
/// same architecture.
pub proof fn lemma_tcb_order_same_architecture(a: TCBVersion, b: TCBVersion)
    ensures
        tcb_order(a, b) is Some ==> a.fmc.is_some() == b.fmc.is_some(),
        a.fmc.is_some() != b.fmc.is_some() ==> tcb_order(a, b) is None,
{
}

/// Between versions of the same architecture, the comparison is the
/// componentwise order of the patch levels: `a` is below `b` exactly when
/// no level of `a` exceeds that of `b` and the versions differ, and above
/// it in the mirror case. A newer boot loader, TEE, SNP firmware,
/// microcode or FMC level is a higher TCB.
pub proof fn lemma_tcb_order_componentwise(a: TCBVersion, b: TCBVersion)
    requires
        a.fmc.is_some() == b.fmc.is_some(),
    ensures
        (tcb_order(a, b) == Some(Ordering::Less)) == (a != b && a.boot_loader <= b.boot_loader && a.tee
            <= b.tee && a.snp <= b.snp && a.microcode <= b.microcode && (a.fmc matches Some(x) ==> x
            <= b.fmc->0)),
        (tcb_order(a, b) == Some(Ordering::Greater)) == (a != b && b.boot_loader <= a.boot_loader
            && b.tee <= a.tee && b.snp <= a.snp && b.microcode <= a.microcode && (b.fmc matches Some(
            x,
        ) ==> x <= a.fmc->0)),
{
}

/// Raising a single patch level of a version, all else equal, gives a
/// strictly higher TCB.
pub proof fn lemma_tcb_order_single_component(a: TCBVersion, b: TCBVersion)
    requires
        a.fmc.is_some() == b.fmc.is_some(),
        (a.boot_loader < b.boot_loader && a.tee == b.tee && a.snp == b.snp && a.microcode == b.microcode
            && a.fmc == b.fmc) || (a.boot_loader == b.boot_loader && a.tee < b.tee && a.snp == b.snp
            && a.microcode == b.microcode && a.fmc == b.fmc) || (a.boot_loader == b.boot_loader && a.tee
            == b.tee && a.snp < b.snp && a.microcode == b.microcode && a.fmc == b.fmc) || (a.boot_loader
            == b.boot_loader && a.tee == b.tee && a.snp == b.snp && a.microcode < b.microcode && a.fmc
            == b.fmc) || (a.boot_loader == b.boot_loader && a.tee == b.tee && a.snp == b.snp
            && a.microcode == b.microcode && a.fmc is Some && b.fmc is Some && a.fmc->0 < b.fmc->0),
    ensures
        tcb_order(a, b) == Some(Ordering::Less),
        tcb_order(b, a) == Some(Ordering::Greater),
{
    lemma_tcb_order_componentwise(a, b);
    lemma_tcb_order_componentwise(b, a);
}

} // verus!
