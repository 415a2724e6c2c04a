//! Address ownership verification: a candidate address is accepted exactly
//! when regenerating the public address from the seed at the candidate's
//! derivation index reproduces the candidate's address, character for
//! character.

use vstd::prelude::*;

use crate::addrs::AddrInfo;
#[allow(deprecated)]
use crypto::hashes::ternary::kerl::Kerl;
use crypto::keys::ternary::seed::Seed;
#[allow(deprecated)]
use crypto::keys::ternary::wots::sponge::WotsSpongePrivateKeyGeneratorBuilder;
#[allow(deprecated)]
use crypto::keys::ternary::wots::WotsSecurityLevel;
use crypto::keys::ternary::PrivateKeyGenerator;
use crypto::signatures::ternary::PrivateKey;
use crypto::signatures::ternary::PublicKey;

verus! {

/// Security level of the one-time-signature scheme on the legacy network.
#[derive(Debug, Clone, Copy, PartialEq, Eq, Structural)]
pub enum SecurityLevel {
    Low,
    Medium,
    High,
}

impl SecurityLevel {
    /// The level as the small integer the legacy network numbers it with.
    pub open spec fn as_int(self) -> int {
        match self {
            SecurityLevel::Low => 1,
            SecurityLevel::Medium => 2,
            SecurityLevel::High => 3,
        }
    }

    /// Reads a level from its number; levels other than 1, 2 and 3 do not
    /// exist.
    pub fn from_u8(v: u8) -> (r: Option<SecurityLevel>)
        ensures
            match r {
                Some(l) => l.as_int() == v as int,
                None => !(1 <= v <= 3),
            },
    {
        match v {
            1u8 => Some(SecurityLevel::Low),
            2u8 => Some(SecurityLevel::Medium),
            3u8 => Some(SecurityLevel::High),
            _ => None,
        }
    }
}

/// The public address that the one-time-signature scheme derives from a seed
/// at an index and security level, or nothing where derivation is undefined
/// (a malformed seed).  Key derivation is deterministic and pure, so the
/// result is a function of the three arguments alone.
pub uninterp spec fn wots_address(seed: Seq<char>, index: int, level: int) -> Option<Seq<char>>;

/// Relies on `crypto`'s ternary WOTS sponge key generator over Kerl:
/// `Seed::from_str`, `generate_from_seed` and `generate_public_key` are
/// deterministic in the seed, index and security level, fail only on
/// malformed input, and a derived public key reads back as 81 trytes.
#[allow(deprecated)]
#[verifier::external_body]
fn derive_wots_address(seed: &str, index: usize, level: SecurityLevel) -> (r: Option<String>)
    ensures
        match r {
            Some(a) => wots_address(seed@, index as int, level.as_int()) == Some(a@)
                && a@.len() == 81,
            None => wots_address(seed@, index as int, level.as_int()) is None,
        },
{
    let lvl = match level {
        SecurityLevel::Low => WotsSecurityLevel::Low,
        SecurityLevel::Medium => WotsSecurityLevel::Medium,
        SecurityLevel::High => WotsSecurityLevel::High,
    };
    let seed: Seed = seed.parse().ok()?;
    let gen = WotsSpongePrivateKeyGeneratorBuilder::<Kerl>::default()
        .with_security_level(lvl)
        .build()
        .ok()?;
    let pk = gen.generate_from_seed(&seed, index).ok()?.generate_public_key().ok()?;
    Some(pk.as_trits().iter_trytes().map(char::from).collect())
}

/// Regenerates the public address for `(seed, index, level)`, or `None`
/// where the scheme derives nothing.
pub fn derive_address(seed: &str, index: usize, level: SecurityLevel) -> (r: Option<String>)
    ensures
        match r {
            Some(a) => wots_address(seed@, index as int, level.as_int()) == Some(a@)
                && a@.len() == 81,
            None => wots_address(seed@, index as int, level.as_int()) is None,
        },
{
    derive_wots_address(seed, index, level)
}

/// A candidate is accepted exactly when the derived address equals its
/// address.
pub open spec fn verify_accepts(seed: Seq<char>, a: AddrInfo, level: int) -> bool {
    wots_address(seed, a.idx as int, level) == Some(a.addr@)
}

/// Verifies that `addr` belongs to `seed`: derives the one-time key pair for
/// the candidate's index, derives its public address, and compares it with
/// the candidate's address.  Any mismatch, and any failure to derive,
/// rejects.
pub fn verify_address(seed: &str, addr: AddrInfo, level: SecurityLevel) -> (r: Result<
    AddrInfo,
    (),
>)
    ensures
        r is Ok <==> verify_accepts(seed@, addr, level.as_int()),
        r matches Ok(a) ==> a == addr,
{
    match derive_wots_address(seed, addr.idx, level) {
        Some(derived) => {
            if derived == addr.addr {
                Ok(addr)
            } else {
                Err(())
            }
        },
        None => Err(()),
    }
}

/// Splits candidates into those that verify against `seed` and those that do
/// not; order is kept on both sides, and every candidate lands on exactly
/// one side.  Each run on the same inputs returns the same split.
pub fn filter_verified(seed: &str, addrs: Vec<AddrInfo>, level: SecurityLevel) -> (r: (
    Vec<AddrInfo>,
    Vec<AddrInfo>,
))
    ensures
        r.0@ == addrs@.filter(|a: AddrInfo| verify_accepts(seed@, a, level.as_int())),
        r.1@ == addrs@.filter(|a: AddrInfo| !verify_accepts(seed@, a, level.as_int())),
{
    let ghost full = addrs@;
    let mut src = addrs;
    let mut accepted: Vec<AddrInfo> = Vec::new();
    let mut rejected: Vec<AddrInfo> = Vec::new();
    let ghost mut k: int = 0;

    proof {
        reveal(Seq::filter);
    }
    while src.len() > 0
        invariant
            0 <= k <= full.len(),
            src@ =~= full.skip(k),
            accepted@ == full.take(k).filter(
                |a: AddrInfo| verify_accepts(seed@, a, level.as_int()),
            ),
            rejected@ == full.take(k).filter(
                |a: AddrInfo| !verify_accepts(seed@, a, level.as_int()),
            ),
        decreases src@.len(),
    {
        let a = src.remove(0);
        proof {
            assert(a == full[k]);
            assert(full.skip(k).skip(1) =~= full.skip(k + 1));
            assert(full.take(k + 1).drop_last() =~= full.take(k));
            assert(full.take(k + 1).last() == full[k]);
            reveal(Seq::filter);
        }
        let ghost pa = accepted@;
        let ghost pr = rejected@;
        let matched = match derive_wots_address(seed, a.idx, level) {
            Some(derived) => derived == a.addr,
            None => false,
        };
        if matched {
            accepted.push(a);
            proof {
                assert(accepted@ =~= pa.push(full[k]));
            }
        } else {
            rejected.push(a);
            proof {
                assert(rejected@ =~= pr.push(full[k]));
            }
        }
        proof {
            k = k + 1;
        }
    }
    proof {
        assert(full.take(k) =~= full);
    }
    (accepted, rejected)
}

/// Verification soundness, acceptance half: a candidate whose address is the
/// address derived from the seed at the candidate's index is accepted.
pub proof fn lemma_verification_sound(seed: Seq<char>, a: AddrInfo, level: int)
    requires
        wots_address(seed, a.idx as int, level) == Some(a.addr@),
    ensures
        verify_accepts(seed, a, level),
{
}

/// Verification soundness, rejection half: a candidate whose address differs
/// from the derived address in even one character is rejected.
pub proof fn lemma_verification_rejects_mutation(
    seed: Seq<char>,
    a: AddrInfo,
    level: int,
    derived: Seq<char>,
    i: int,
)
    requires
        wots_address(seed, a.idx as int, level) == Some(derived),
        0 <= i < derived.len(),
        a.addr@ == derived.update(i, a.addr@[i]),
        a.addr@[i] != derived[i],
    ensures
        !verify_accepts(seed, a, level),
{
    assert(a.addr@[i] != derived[i]);
    assert(a.addr@ != derived);
}

/// Verification is pure: the verdict is a function of seed, candidate and
/// level alone, so re-running it on identical inputs gives identical output.
pub proof fn lemma_verification_idempotent(
    seed: Seq<char>,
    a: AddrInfo,
    level: int,
    r1: bool,
    r2: bool,
)
    requires
        r1 == verify_accepts(seed, a, level),
        r2 == verify_accepts(seed, a, level),
    ensures
        r1 == r2,
{
}

} // verus!
