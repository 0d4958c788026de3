//! Identifiers of organizations, projects and project keys.

use vstd::prelude::*;
use vstd::string::StringSliceAdditionalSpecFns;

verus! {

/// The unique identifier of an organization.
#[derive(Clone, Copy, Debug, PartialEq, Eq, Hash, Structural)]
pub struct OrganizationId {
    pub value: u64,
}

impl OrganizationId {
    /// Creates an identifier from its numeric value.
    pub fn new(value: u64) -> (r: Self)
        ensures
            r.value == value,
    {
        OrganizationId { value }
    }

    /// Returns the numeric value of this identifier.
    pub fn value(&self) -> (r: u64)
        ensures
            r == self.value,
    {
        self.value
    }
}

/// The unique identifier of a project.
#[derive(Clone, Copy, Debug, PartialEq, Eq, Hash, Structural)]
pub struct ProjectId {
    pub value: u64,
}

impl ProjectId {
    /// Creates an identifier from its numeric value.
    pub fn new(value: u64) -> (r: Self)
        ensures
            r.value == value,
    {
        ProjectId { value }
    }

    /// Returns the numeric value of this identifier.
    pub fn value(&self) -> (r: u64)
        ensures
            r == self.value,
    {
        self.value
    }
}

/// The number of characters in a project key.
pub const PROJECT_KEY_LEN: usize = 32;

/// `256` to the power of `n`.
pub open spec fn pow256(n: nat) -> nat
    decreases n,
{
    if n == 0 {
        1
    } else {
        256 * pow256((n - 1) as nat)
    }
}

/// The bytes of `s`, read as a big-endian number.
pub open spec fn pack_bytes(s: Seq<u8>) -> nat
    decreases s.len(),
{
    if s.len() == 0 {
        0
    } else {
        pack_bytes(s.drop_last()) * 256 + (s.last() as nat)
    }
}

/// Whether every byte of `s` is an ASCII character.
pub open spec fn all_ascii(s: Seq<u8>) -> bool {
    forall|i: int| 0 <= i < s.len() ==> s[i] < 128
}

/// The public key of a project (its DSN key): 32 ASCII characters, held as two halves of 16
/// characters, each read as a big-endian number.
#[derive(Clone, Copy, Debug, PartialEq, Eq, Hash, Structural)]
pub struct ProjectKey {
    pub high: u128,
    pub low: u128,
}

/// The error returned when a string is not a valid project key.
#[derive(Clone, Copy, Debug, PartialEq, Eq, Structural)]
pub struct ParseProjectKeyError;

/// The key that a string of bytes stands for, if it is one.
pub open spec fn spec_parse_project_key(b: Seq<u8>) -> Option<ProjectKey> {
    if b.len() == PROJECT_KEY_LEN && all_ascii(b) {
        Some(
            ProjectKey {
                high: pack_bytes(b.subrange(0, 16)) as u128,
                low: pack_bytes(b.subrange(16, 32)) as u128,
            },
        )
    } else {
        None
    }
}

proof fn lemma_pow256_16()
    ensures
        pow256(16) == 0x1_0000_0000_0000_0000_0000_0000_0000_0000,
{
    reveal_with_fuel(pow256, 17);
}

/// Reads `b[start..start + 16]` as a big-endian number.
fn pack_half(b: &[u8], start: usize) -> (r: u128)
    requires
        start + 16 <= b@.len(),
    ensures
        r == pack_bytes(b@.subrange(start as int, start + 16)),
{
    let mut acc: u128 = 0;
    let mut i: usize = 0;
    proof {
        lemma_pow256_16();
        assert(b@.subrange(start as int, start as int) =~= Seq::<u8>::empty());
    }
    while i < 16
        invariant
            i <= 16,
            start + 16 <= b@.len(),
            b@.len() == b.len(),
            pow256(16) == 0x1_0000_0000_0000_0000_0000_0000_0000_0000,
            acc == pack_bytes(b@.subrange(start as int, start + i)),
            acc < pow256(i as nat),
        decreases 16 - i,
    {
        let byte = b[start + i];
        let ghost p = pow256(i as nat);
        proof {
            assert(pow256((i + 1) as nat) == 256 * p);
            assert(acc * 256 + byte < 256 * p) by (nonlinear_arith)
                requires
                    acc < p,
                    byte < 256,
            ;
            assert(pow256((i + 1) as nat) <= pow256(16)) by {
                lemma_pow256_monotone((i + 1) as nat, 16);
            }
            let next = b@.subrange(start as int, start + i + 1);
            assert(next.drop_last() =~= b@.subrange(start as int, start + i));
        }
        acc = acc * 256 + byte as u128;
        i = i + 1;
    }
    acc
}

proof fn lemma_pow256_monotone(a: nat, b: nat)
    requires
        a <= b,
    ensures
        pow256(a) <= pow256(b),
    decreases b,
{
    if a < b {
        lemma_pow256_monotone(a, (b - 1) as nat);
    }
}

proof fn lemma_pack_bound(s: Seq<u8>)
    ensures
        pack_bytes(s) < pow256(s.len()),
    decreases s.len(),
{
    if s.len() > 0 {
        lemma_pack_bound(s.drop_last());
        let p = pow256(s.drop_last().len());
        let a = pack_bytes(s.drop_last());
        let x = s.last();
        assert(a * 256 + x < 256 * p) by (nonlinear_arith)
            requires
                a < p,
                x < 256,
        ;
    }
}

impl ProjectKey {
    /// Parses a project key from its string form: exactly 32 ASCII characters.
    pub fn parse(key: &str) -> (r: Result<ProjectKey, ParseProjectKeyError>)
        ensures
            r is Ok <==> spec_parse_project_key(key.spec_bytes()) is Some,
            r matches Ok(k) ==> spec_parse_project_key(key.spec_bytes()) == Some(k),
    {
        let b = key.as_bytes();
        if b.len() != PROJECT_KEY_LEN {
            return Err(ParseProjectKeyError);
        }
        let mut i: usize = 0;
        while i < b.len()
            invariant
                i <= b@.len(),
                b@ == key.spec_bytes(),
                forall|j: int| 0 <= j < i ==> b@[j] < 128,
            decreases b@.len() - i,
        {
            if b[i] >= 128 {
                assert(!all_ascii(key.spec_bytes())) by {
                    assert(b@[i as int] >= 128);
                }
                assert(spec_parse_project_key(key.spec_bytes()) is None);
                return Err(ParseProjectKeyError);
            }
            i = i + 1;
        }
        let high = pack_half(b, 0);
        let low = pack_half(b, 16);
        Ok(ProjectKey { high, low })
    }
}

proof fn lemma_pack_injective(s: Seq<u8>, t: Seq<u8>)
    requires
        s.len() == t.len(),
        pack_bytes(s) == pack_bytes(t),
    ensures
        s == t,
    decreases s.len(),
{
    if s.len() > 0 {
        let a = pack_bytes(s.drop_last());
        let b = pack_bytes(t.drop_last());
        let x = s.last() as nat;
        let y = t.last() as nat;
        assert(a == b && x == y) by (nonlinear_arith)
            requires
                a * 256 + x == b * 256 + y,
                x < 256,
                y < 256,
        ;
        lemma_pack_injective(s.drop_last(), t.drop_last());
        assert(s =~= s.drop_last().push(s.last()));
        assert(t =~= t.drop_last().push(t.last()));
    } else {
        assert(s =~= t);
    }
}

/// Two strings parse to the same project key exactly when they are the same string of bytes.
pub proof fn law_project_key_parse_injective(a: Seq<u8>, b: Seq<u8>)
    requires
        spec_parse_project_key(a) is Some,
        spec_parse_project_key(b) is Some,
    ensures
        spec_parse_project_key(a) == spec_parse_project_key(b) <==> a == b,
{
    if spec_parse_project_key(a) == spec_parse_project_key(b) {
        lemma_pow256_16();
        lemma_pack_bound(a.subrange(0, 16));
        lemma_pack_bound(a.subrange(16, 32));
        lemma_pack_bound(b.subrange(0, 16));
        lemma_pack_bound(b.subrange(16, 32));
        lemma_pack_injective(a.subrange(0, 16), b.subrange(0, 16));
        lemma_pack_injective(a.subrange(16, 32), b.subrange(16, 32));
        assert(a =~= a.subrange(0, 16) + a.subrange(16, 32));
        assert(b =~= b.subrange(0, 16) + b.subrange(16, 32));
    }
}

} // verus!
