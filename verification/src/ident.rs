//! Deterministic derivation of a unique 32-byte sub-account per stake.
//!
//! The sub-account is the SHA-256 digest of the caller's identity bytes,
//! followed by an allocator nonce as 8 big-endian bytes, followed by a fixed
//! domain-separation tag. The human-readable account identifier is a fixed
//! prefix plus the lowercase hexadecimal encoding of the sub-account.
//!
//! Because the nonce is globally unique per derivation, two derivations with
//! distinct nonces hash distinct inputs, whatever the caller identities are
//! (`lemma_derivation_messages_distinct`).

use vstd::prelude::*;
use vstd::string::StringExecFns;
use sha2::Digest;

verus! {

/// The lowercase hexadecimal digit for a nibble value (below 16).
pub open spec fn hex_digit(n: u8) -> char
    recommends
        n < 16,
{
    if n == 0 {
        '0'
    } else if n == 1 {
        '1'
    } else if n == 2 {
        '2'
    } else if n == 3 {
        '3'
    } else if n == 4 {
        '4'
    } else if n == 5 {
        '5'
    } else if n == 6 {
        '6'
    } else if n == 7 {
        '7'
    } else if n == 8 {
        '8'
    } else if n == 9 {
        '9'
    } else if n == 10 {
        'a'
    } else if n == 11 {
        'b'
    } else if n == 12 {
        'c'
    } else if n == 13 {
        'd'
    } else if n == 14 {
        'e'
    } else {
        'f'
    }
}

/// Lowercase hexadecimal encoding: two digits per byte, high nibble first.
pub open spec fn hex_of(s: Seq<u8>) -> Seq<char> {
    Seq::new(
        s.len() * 2,
        |i: int|
            if i % 2 == 0 {
                hex_digit(s[i / 2] / 16)
            } else {
                hex_digit(s[i / 2] % 16)
            },
    )
}

/// The allocator nonce as 8 bytes, most significant first.
pub open spec fn u64_be_bytes(n: u64) -> Seq<u8> {
    seq![
        (n >> 56) as u8,
        (n >> 48) as u8,
        (n >> 40) as u8,
        (n >> 32) as u8,
        (n >> 24) as u8,
        (n >> 16) as u8,
        (n >> 8) as u8,
        n as u8,
    ]
}

/// The fixed domain-separation tag mixed into every derivation
/// (the ASCII bytes of `staking_pool`).
pub open spec fn domain_tag() -> Seq<u8> {
    seq![0x73u8, 0x74u8, 0x61u8, 0x6bu8, 0x69u8, 0x6eu8, 0x67u8, 0x5fu8, 0x70u8, 0x6fu8, 0x6fu8,
        0x6cu8]
}

/// The exact byte string hashed to derive one sub-account.
pub open spec fn derivation_message(caller: Seq<u8>, nonce: u64) -> Seq<u8> {
    caller + u64_be_bytes(nonce) + domain_tag()
}

/// The SHA-256 digest of a byte string, as `sha2` computes it.
pub uninterp spec fn sha256_of(m: Seq<u8>) -> Seq<u8>;

/// The human-readable identifier of a sub-account: a fixed prefix plus the
/// lowercase hexadecimal encoding of its bytes.
pub open spec fn account_id_spec(sub: Seq<u8>) -> Seq<char> {
    "account_"@ + hex_of(sub)
}

/// Relies on `sha2::Sha256` through `Digest::digest`: the 32-byte digest is a
/// function of the input bytes alone.
#[verifier::external_body]
fn sha256_digest(m: &Vec<u8>) -> (r: [u8; 32])
    ensures
        r@ == sha256_of(m@),
{
    let digest = sha2::Sha256::digest(m.as_slice());
    let mut out = [0u8; 32];
    out.copy_from_slice(digest.as_slice());
    out
}

/// Relies on `hex::encode`: lowercase hexadecimal, two digits per byte,
/// high nibble first.
#[verifier::external_body]
fn hex_encode(b: &[u8; 32]) -> (r: String)
    ensures
        r@ == hex_of(b@),
{
    hex::encode(b)
}

/// The 8-byte big-endian encoding of a nonce.
pub fn u64_to_be_bytes(n: u64) -> (r: Vec<u8>)
    ensures
        r@ == u64_be_bytes(n),
{
    let mut v: Vec<u8> = Vec::new();
    v.push(#[verifier::truncate] ((n >> 56) as u8));
    v.push(#[verifier::truncate] ((n >> 48) as u8));
    v.push(#[verifier::truncate] ((n >> 40) as u8));
    v.push(#[verifier::truncate] ((n >> 32) as u8));
    v.push(#[verifier::truncate] ((n >> 24) as u8));
    v.push(#[verifier::truncate] ((n >> 16) as u8));
    v.push(#[verifier::truncate] ((n >> 8) as u8));
    v.push(#[verifier::truncate] (n as u8));
    proof {
        assert(v@ =~= u64_be_bytes(n));
    }
    v
}

/// The byte string hashed to derive the sub-account for `caller` under `nonce`.
pub fn build_derivation_message(caller: &Vec<u8>, nonce: u64) -> (r: Vec<u8>)
    ensures
        r@ == derivation_message(caller@, nonce),
{
    let mut m: Vec<u8> = Vec::new();
    let mut i: usize = 0;
    while i < caller.len()
        invariant
            i <= caller@.len(),
            m@ =~= caller@.take(i as int),
        decreases caller@.len() - i,
    {
        m.push(caller[i]);
        i = i + 1;
    }
    proof {
        assert(m@ =~= caller@);
    }
    let be = u64_to_be_bytes(nonce);
    let mut j: usize = 0;
    while j < be.len()
        invariant
            j <= be@.len(),
            be@ == u64_be_bytes(nonce),
            m@ =~= caller@ + be@.take(j as int),
        decreases be@.len() - j,
    {
        m.push(be[j]);
        j = j + 1;
    }
    m.push(0x73u8);
    m.push(0x74u8);
    m.push(0x61u8);
    m.push(0x6bu8);
    m.push(0x69u8);
    m.push(0x6eu8);
    m.push(0x67u8);
    m.push(0x5fu8);
    m.push(0x70u8);
    m.push(0x6fu8);
    m.push(0x6fu8);
    m.push(0x6cu8);
    proof {
        assert(m@ =~= derivation_message(caller@, nonce));
    }
    m
}

/// Derives the sub-account for `caller` under `nonce`: the SHA-256 digest of
/// the derivation message.
pub fn derive_subaccount(caller: &Vec<u8>, nonce: u64) -> (r: [u8; 32])
    ensures
        r@ == sha256_of(derivation_message(caller@, nonce)),
{
    let m = build_derivation_message(caller, nonce);
    sha256_digest(&m)
}

/// The human-readable account identifier of a sub-account.
pub fn get_account_identifier(sub: &[u8; 32]) -> (r: String)
    ensures
        r@ == account_id_spec(sub@),
{
    let mut s = String::from_str("account_");
    let h = hex_encode(sub);
    s.append(h.as_str());
    s
}

/// The 8-byte big-endian encoding is injective.
proof fn lemma_u64_be_bytes_injective(a: u64, b: u64)
    requires
        u64_be_bytes(a) == u64_be_bytes(b),
    ensures
        a == b,
{
    assert(u64_be_bytes(a)[0] == u64_be_bytes(b)[0]);
    assert(u64_be_bytes(a)[1] == u64_be_bytes(b)[1]);
    assert(u64_be_bytes(a)[2] == u64_be_bytes(b)[2]);
    assert(u64_be_bytes(a)[3] == u64_be_bytes(b)[3]);
    assert(u64_be_bytes(a)[4] == u64_be_bytes(b)[4]);
    assert(u64_be_bytes(a)[5] == u64_be_bytes(b)[5]);
    assert(u64_be_bytes(a)[6] == u64_be_bytes(b)[6]);
    assert(u64_be_bytes(a)[7] == u64_be_bytes(b)[7]);
    assert((a >> 56) as u8 == (b >> 56) as u8 && (a >> 48) as u8 == (b >> 48) as u8 && (a >> 40)
        as u8 == (b >> 40) as u8 && (a >> 32) as u8 == (b >> 32) as u8 && (a >> 24) as u8 == (b
        >> 24) as u8 && (a >> 16) as u8 == (b >> 16) as u8 && (a >> 8) as u8 == (b >> 8) as u8 && a
        as u8 == b as u8 ==> a == b) by (bit_vector);
}

/// Law: derivations under distinct nonces hash distinct byte strings, for any
/// caller identities — the allocator nonce alone rules out a shared preimage.
pub proof fn lemma_derivation_messages_distinct(c1: Seq<u8>, c2: Seq<u8>, n1: u64, n2: u64)
    requires
        n1 != n2,
    ensures
        derivation_message(c1, n1) != derivation_message(c2, n2),
{
    let m1 = derivation_message(c1, n1);
    let m2 = derivation_message(c2, n2);
    if m1 == m2 {
        assert(m1.len() == c1.len() + 20);
        assert(m2.len() == c2.len() + 20);
        assert(c1.len() == c2.len());
        let base = c1.len() as int;
        assert forall|i: int| 0 <= i < 8 implies u64_be_bytes(n1)[i] == u64_be_bytes(n2)[i] by {
            assert(m1[base + i] == u64_be_bytes(n1)[i]);
            assert(m2[base + i] == u64_be_bytes(n2)[i]);
        }
        assert(u64_be_bytes(n1) =~= u64_be_bytes(n2));
        lemma_u64_be_bytes_injective(n1, n2);
        assert(false);
    }
}

} // verus!
