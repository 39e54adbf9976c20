use vstd::prelude::*;

use crate::text::{hex_char, hex_lower, to_hex};

verus! {

/// The SEC1 uncompressed public key (65 bytes) of the non-hardened BIP32
/// child of the extended public key `xpub` at `index`. It depends on the
/// extended key and the index alone.
pub uninterp spec fn child_pubkey(xpub: Seq<char>, index: u32) -> Seq<u8>;

/// Whether child derivation succeeds for `xpub` at `index`: the string
/// parses as an extended public key below the maximum tree depth and the
/// index is non-hardened. It depends on the two arguments alone, so two
/// calls on the same inputs agree on succeeding.
pub uninterp spec fn derives(xpub: Seq<char>, index: u32) -> bool;

/// The Keccak-256 digest of a byte string; a function of its input alone.
pub uninterp spec fn keccak256_of(bytes: Seq<u8>) -> Seq<u8>;

/// Relies on coins_bip32: `MainnetEncoder::xpub_from_base58` parses the
/// extended public key, `Parent::derive_child` derives the non-hardened
/// child at `index` (an error for a hardened index or a malformed key),
/// and k256's `VerifyingKey::to_encoded_point(false)` yields the child
/// key's 65-byte SEC1 uncompressed encoding. Two inputs are refused here
/// before the calls, because the crate would panic on them instead of
/// returning an error: a string of fewer than one hundred characters (a
/// valid extended key encodes to about 111; the crate's base58check
/// decoder underflows on anything that decodes to fewer than its four
/// checksum bytes, while one hundred base58 characters always decode to
/// more), and a parsed key already at the maximum tree depth (whose depth
/// counter `derive_child` would overflow). On the astronomically rare
/// invalid child tweak, `derive_child` derives the next index instead, so
/// "the child at `index`" is almost-always literal; the result is still a
/// function of the key string and the index alone.
#[verifier::external_body]
fn derive_child_pubkey(xpub: &str, index: u32) -> (r: Option<Vec<u8>>)
    ensures
        r is Some <==> derives(xpub@, index),
        r is Some ==> r.unwrap()@ == child_pubkey(xpub@, index) && r.unwrap()@.len() == 65,
{
    if xpub.len() < 100 {
        return None;
    }
    let parsed = <coins_bip32::enc::MainnetEncoder as coins_bip32::enc::XKeyEncoder>::xpub_from_base58(xpub).ok()?;
    let info: &coins_bip32::primitives::XKeyInfo = parsed.as_ref();
    if info.depth == u8::MAX {
        return None;
    }
    let child = coins_bip32::xkeys::Parent::derive_child(&parsed, index).ok()?;
    let vk: &coins_bip32::ecdsa::VerifyingKey = child.as_ref();
    Some(vk.to_encoded_point(false).as_bytes().to_vec())
}

/// Relies on alloy_primitives::keccak256: the 32-byte Keccak-256 digest of
/// the input bytes.
#[verifier::external_body]
fn keccak_bytes(bytes: &Vec<u8>) -> (r: Vec<u8>)
    ensures
        r@ == keccak256_of(bytes@),
        r@.len() == 32,
{
    alloy_primitives::keccak256(bytes.as_slice()).0.to_vec()
}

/// Whether `c` is a lowercase hexadecimal letter.
pub open spec fn is_hex_alpha(c: char) -> bool {
    c == 'a' || c == 'b' || c == 'c' || c == 'd' || c == 'e' || c == 'f'
}

/// The uppercase form of a lowercase hexadecimal letter.
pub open spec fn hex_upper_char(c: char) -> char {
    if c == 'a' {
        'A'
    } else if c == 'b' {
        'B'
    } else if c == 'c' {
        'C'
    } else if c == 'd' {
        'D'
    } else if c == 'e' {
        'E'
    } else {
        'F'
    }
}

/// The `i`-th nibble of a byte string, most significant nibble of each
/// byte first.
pub open spec fn nibble_at(bytes: Seq<u8>, i: int) -> nat {
    if i % 2 == 0 {
        (bytes[i / 2] / 16) as nat
    } else {
        (bytes[i / 2] % 16) as nat
    }
}

/// The ASCII bytes of a string of ASCII characters.
pub open spec fn ascii_bytes(s: Seq<char>) -> Seq<u8> {
    Seq::new(s.len(), |i: int| s[i] as u8)
}

/// The checksummed form of the lowercase hex digits `lower`: a letter is
/// uppercased exactly when the matching nibble of the checksum digest is
/// eight or more.
pub open spec fn checksummed(lower: Seq<char>, digest: Seq<u8>) -> Seq<char> {
    Seq::new(
        lower.len(),
        |i: int|
            if is_hex_alpha(lower[i]) && nibble_at(digest, i) >= 8 {
                hex_upper_char(lower[i])
            } else {
                lower[i]
            },
    )
}

/// The canonical checksummed address text of a SEC1 uncompressed public
/// key: `0x`, then the last twenty bytes of the Keccak-256 digest of the
/// key without its leading tag byte, in hex, checksummed over the digest
/// of that hex text.
pub open spec fn evm_address_spec(pubkey: Seq<u8>) -> Seq<char> {
    let h = keccak256_of(pubkey.subrange(1, 65));
    let addr = h.subrange(12, 32);
    let lower = hex_lower(addr);
    let digest = keccak256_of(ascii_bytes(lower));
    seq!['0', 'x'] + checksummed(lower, digest)
}

/// Hex digits are ASCII characters.
pub proof fn lemma_hex_lower_ascii(s: Seq<u8>)
    ensures
        forall|i: int|
            #![trigger hex_lower(s)[i]]
            0 <= i < hex_lower(s).len() ==> (hex_lower(s)[i] as u32) < 128,
        hex_lower(s).len() == 2 * s.len(),
    decreases s.len(),
{
    if s.len() > 0 {
        lemma_hex_lower_ascii(s.drop_last());
    }
}

/// Builds the checksummed address text from a 65-byte SEC1 uncompressed
/// public key, exactly as `evm_address_spec` states it.
pub fn evm_address_from_pubkey(pubkey: &Vec<u8>) -> (r: String)
    requires
        pubkey@.len() == 65,
    ensures
        r@ == evm_address_spec(pubkey@),
{
    // The key body without the SEC1 tag byte.
    let mut tail: Vec<u8> = Vec::new();
    let mut i: usize = 1;
    while i < 65
        invariant
            1 <= i <= 65,
            pubkey@.len() == 65,
            tail@ == pubkey@.subrange(1, i as int),
        decreases 65 - i,
    {
        tail.push(pubkey[i]);
        proof {
            assert(tail@ =~= pubkey@.subrange(1, i + 1));
        }
        i += 1;
    }
    let h = keccak_bytes(&tail);
    let mut addr: Vec<u8> = Vec::new();
    let mut j: usize = 12;
    while j < 32
        invariant
            12 <= j <= 32,
            h@.len() == 32,
            addr@ == h@.subrange(12, j as int),
        decreases 32 - j,
    {
        addr.push(h[j]);
        proof {
            assert(addr@ =~= h@.subrange(12, j + 1));
        }
        j += 1;
    }
    let lower = to_hex(&addr);
    let ghost lowerv = lower@;
    // The checksum digest is taken over the hex text's ASCII bytes.
    let n = lower.as_str().unicode_len();
    proof {
        lemma_hex_lower_ascii(addr@);
    }
    let mut ascii: Vec<u8> = Vec::new();
    let mut k: usize = 0;
    while k < n
        invariant
            0 <= k <= n,
            n == lowerv.len(),
            lower@ == lowerv,
            forall|x: int| 0 <= x < lowerv.len() ==> ((#[trigger] lowerv[x]) as u32) < 128,
            ascii@ == ascii_bytes(lowerv).subrange(0, k as int),
        decreases n - k,
    {
        let c = lower.as_str().get_char(k);
        ascii.push(c as u8);
        proof {
            assert(ascii@ =~= ascii_bytes(lowerv).subrange(0, k + 1));
        }
        k += 1;
    }
    proof {
        assert(ascii@ =~= ascii_bytes(lowerv));
    }
    let digest = keccak_bytes(&ascii);
    let mut out = String::new();
    out.push('0');
    out.push('x');
    proof {
        assert(out@ =~= seq!['0', 'x'] + checksummed(lowerv, digest@).subrange(0, 0));
    }
    let mut m: usize = 0;
    while m < n
        invariant
            0 <= m <= n,
            n == lowerv.len(),
            lower@ == lowerv,
            n == 40,
            digest@.len() == 32,
            out@ == seq!['0', 'x'] + checksummed(lowerv, digest@).subrange(0, m as int),
        decreases n - m,
    {
        let c = lower.as_str().get_char(m);
        let byte = digest[m / 2];
        let nib: u8 = if m % 2 == 0 {
            byte / 16
        } else {
            byte % 16
        };
        let is_alpha = c == 'a' || c == 'b' || c == 'c' || c == 'd' || c == 'e' || c == 'f';
        let c2: char = if is_alpha && nib >= 8 {
            match c {
                'a' => 'A',
                'b' => 'B',
                'c' => 'C',
                'd' => 'D',
                'e' => 'E',
                _ => 'F',
            }
        } else {
            c
        };
        out.push(c2);
        proof {
            assert(c2 == checksummed(lowerv, digest@)[m as int]);
            assert(out@ =~= seq!['0', 'x'] + checksummed(lowerv, digest@).subrange(0, m + 1));
        }
        m += 1;
    }
    proof {
        assert(checksummed(lowerv, digest@).subrange(0, n as int) =~= checksummed(
            lowerv,
            digest@,
        ));
        assert(out@ =~= evm_address_spec(pubkey@));
    }
    out
}

/// Derives the checksummed receive address of the BIP32 child of `xpub` at
/// the non-hardened `index`, or nothing when the extended key is malformed
/// or the index is out of range — exactly when `derives` denies the pair.
pub fn derive_address(xpub: &str, index: u32) -> (r: Option<String>)
    ensures
        r is Some <==> derives(xpub@, index),
        r is Some ==> r.unwrap()@ == evm_address_spec(child_pubkey(xpub@, index)),
{
    match derive_child_pubkey(xpub, index) {
        Some(pk) => Some(evm_address_from_pubkey(&pk)),
        None => None,
    }
}

} // verus!
