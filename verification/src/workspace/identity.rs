//! Identifiers that are derived from paths.

use crate::ids::{uuid_variant, uuid_version, Uuid};
use vstd::arithmetic::power::pow;
use vstd::prelude::*;

verus! {

/// The start value of the FNV-1a hash.
pub const FNV_OFFSET: u64 = 14695981039346656037;

/// The factor of the FNV-1a hash.
pub const FNV_PRIME: u64 = 1099511628211;

/// The FNV-1a hash of a list of bytes: each byte is mixed in by exclusive or,
/// then the whole is multiplied by the factor.
pub open spec fn fnv1a(bytes: Seq<u8>) -> u64
    decreases bytes.len(),
{
    if bytes.len() == 0 {
        FNV_OFFSET
    } else {
        (((fnv1a(bytes.drop_last()) ^ (bytes.last() as u64)) as int * FNV_PRIME as int)
            % 0x1_0000_0000_0000_0000) as u64
    }
}

/// The hash of a path, given by its bytes.
pub fn path_hash(path: &[u8]) -> (r: u64)
    ensures
        r == fnv1a(path@),
{
    let mut h: u64 = FNV_OFFSET;
    let mut i: usize = 0;
    proof {
        assert(path@.take(0) =~= Seq::empty());
    }
    while i < path.len()
        invariant
            i <= path@.len(),
            h == fnv1a(path@.take(i as int)),
        decreases path@.len() - i,
    {
        proof {
            assert(path@.take(i + 1).drop_last() =~= path@.take(i as int));
            assert(path@.take(i + 1).last() == path@[i as int]);
        }
        h = (h ^ path[i] as u64).wrapping_mul(FNV_PRIME);
        i += 1;
    }
    proof {
        assert(path@.take(i as int) =~= path@);
    }
    h
}

/// The identifier of the document at a path: the bits of its hash, with a
/// sign.
pub fn path_to_doc_id(path: &[u8]) -> (r: i64)
    ensures
        r == fnv1a(path@) as i64,
{
    path_hash(path) as i64
}

/// The MD5 digest of a list of bytes.
pub uninterp spec fn md5_of(bytes: Seq<u8>) -> Seq<u8>;

/// `md5::Digest::digest` for `md5::Md5`: the digest of the bytes, sixteen
/// bytes that depend on them alone.
#[verifier::external_body]
fn md5_digest(bytes: &[u8]) -> (r: Vec<u8>)
    ensures
        r@ == md5_of(bytes@),
        r@.len() == 16,
{
    <md5::Md5 as md5::Digest>::digest(bytes).to_vec()
}

/// The number that a list of bytes writes, the highest byte first.
pub open spec fn big_endian(bytes: Seq<u8>) -> nat
    decreases bytes.len(),
{
    if bytes.len() == 0 {
        0
    } else {
        big_endian(bytes.drop_last()) * 256 + bytes.last() as nat
    }
}

/// A digest with the version and the variant of an identifier of version 8 in
/// place.
pub open spec fn marked(digest: Seq<u8>) -> Seq<u8> {
    digest.update(6, (digest[6] % 16 + 128) as u8).update(8, (digest[8] % 64 + 128) as u8)
}

/// The lower bytes of a number do not reach the higher ones.
proof fn lemma_big_endian_split(bytes: Seq<u8>, k: int)
    requires
        0 <= k <= bytes.len(),
    ensures
        ({
            let unit = pow(256, (bytes.len() - k) as nat);
            let high = big_endian(bytes.take(k)) as int;
            high * unit <= big_endian(bytes) < (high + 1) * unit
        }),
    decreases bytes.len() - k,
{
    reveal(pow);
    if k == bytes.len() {
        assert(bytes.take(k) =~= bytes);
        assert(pow(256, 0) == 1);
    } else {
        let rest = bytes.drop_last();
        lemma_big_endian_split(rest, k);
        assert(rest.take(k) =~= bytes.take(k));
        let high = big_endian(bytes.take(k)) as int;
        let unit = pow(256, (rest.len() - k) as nat);
        assert(pow(256, (bytes.len() - k) as nat) == 256 * unit);
        assert(high * (256 * unit) == 256 * (high * unit)) by (nonlinear_arith);
        assert((high + 1) * (256 * unit) == 256 * ((high + 1) * unit)) by (nonlinear_arith);
    }
}

proof fn lemma_powers()
    ensures
        pow(256, 16) == 0x1_0000_0000_0000_0000_0000_0000_0000_0000,
        pow(256, 9) == 0x100_0000_0000_0000_0000,
        pow(256, 7) == 0x100_0000_0000_0000,
{
    reveal(pow);
    reveal_with_fuel(pow, 17);
}

/// The identifier of a workspace at a path, given by its bytes.
pub open spec fn uuid_of_path(path: Seq<u8>) -> u128 {
    big_endian(marked(md5_of(path))) as u128
}

/// Sixteen bytes write a number of 128 bits.
proof fn lemma_big_endian_fits(bytes: Seq<u8>)
    requires
        bytes.len() <= 16,
    ensures
        big_endian(bytes) <= u128::MAX,
{
    lemma_big_endian_split(bytes, 0);
    assert(bytes.take(0) =~= Seq::empty());
    let unit = pow(256, bytes.len());
    let high = big_endian(bytes.take(0)) as int;
    assert((high + 1) * unit == unit) by (nonlinear_arith)
        requires
            high == 0,
    ;
    lemma_powers();
    vstd::arithmetic::power::lemma_pow_increases(256, bytes.len(), 16);
}

/// A marked digest has version 8 and the common variant.
proof fn lemma_marked(digest: Seq<u8>)
    requires
        digest.len() == 16,
    ensures
        uuid_version(big_endian(marked(digest)) as u128) == 8,
        uuid_variant(big_endian(marked(digest)) as u128) == 2,
{
    let bytes = marked(digest);
    let value = big_endian(bytes) as int;
    lemma_big_endian_fits(bytes);
    lemma_powers();
    lemma_big_endian_split(bytes, 7);
    lemma_big_endian_split(bytes, 9);
    let a = big_endian(bytes.take(7)) as int;
    let c = big_endian(bytes.take(9)) as int;
    assert(a == big_endian(bytes.take(6)) * 256 + bytes[6]) by {
        assert(bytes.take(7).drop_last() =~= bytes.take(6));
    }
    assert(c == big_endian(bytes.take(8)) * 256 + bytes[8]) by {
        assert(bytes.take(9).drop_last() =~= bytes.take(8));
    }
    assert(value / 0x1000_0000_0000_0000_0000 == a / 16);
    assert(value / 0x4000_0000_0000_0000 == c / 64);
}

/// The identifier that a digest makes: the digest, marked as an identifier of
/// version 8.
pub fn uuid_of_digest(digest: Vec<u8>) -> (r: Uuid)
    requires
        digest@.len() == 16,
    ensures
        r@ == big_endian(marked(digest@)),
        uuid_version(r@) == 8,
        uuid_variant(r@) == 2,
{
    let ghost given = digest@;
    let mut bytes = digest;
    proof {
        lemma_marked(given);
        lemma_big_endian_fits(marked(given));
    }
    let version: u8 = bytes[6] % 16 + 128;
    let variant: u8 = bytes[8] % 64 + 128;
    bytes.set(6, version);
    bytes.set(8, variant);
    let mut value: u128 = 0;
    let mut i: usize = 0;
    proof {
        assert(bytes@ =~= marked(given));
        assert(bytes@.take(0) =~= Seq::empty());
    }
    while i < 16
        invariant
            i <= 16 == bytes@.len(),
            value == big_endian(bytes@.take(i as int)),
        decreases 16 - i,
    {
        proof {
            assert(bytes@.take(i + 1).drop_last() =~= bytes@.take(i as int));
            lemma_big_endian_fits(bytes@.take(i + 1));
        }
        value = value * 256 + bytes[i] as u128;
        i += 1;
    }
    proof {
        assert(bytes@.take(16) =~= bytes@);
    }
    Uuid { value }
}

/// The stable identifier of the workspace at a path, given by the bytes of the
/// path: its MD5 digest, marked as an identifier of version 8.
pub fn path_uuid(canonical: &[u8]) -> (r: Uuid)
    ensures
        r@ == uuid_of_path(canonical@),
        md5_of(canonical@).len() == 16,
        uuid_version(r@) == 8,
        uuid_variant(r@) == 2,
{
    uuid_of_digest(md5_digest(canonical))
}

/// A document is identified by the bytes of its path alone: byte by byte from
/// the start, each mixed into the hash of those before it, which is then
/// multiplied, within sixty-four bits.
pub proof fn hashes_go_byte_by_byte(bytes: Seq<u8>, next: u8)
    ensures
        fnv1a(Seq::empty()) == 0xcbf2_9ce4_8422_2325,
        fnv1a(bytes.push(next)) == ((fnv1a(bytes) ^ (next as u64)) as int * 0x100_0000_01b3)
            % 0x1_0000_0000_0000_0000,
{
    assert(bytes.push(next).drop_last() =~= bytes);
}

/// The identifier of a workspace is the digest of its path, bit for bit, but
/// for the four bits of the version and the two of the variant.
pub proof fn identifiers_are_marked_digests(digest: Seq<u8>, i: int)
    requires
        digest.len() == 16,
        0 <= i < 16,
    ensures
        marked(digest).len() == 16,
        i != 6 && i != 8 ==> marked(digest)[i] == digest[i],
        marked(digest)[6] / 16 == 8,
        marked(digest)[6] % 16 == digest[6] % 16,
        marked(digest)[8] / 64 == 2,
        marked(digest)[8] % 64 == digest[8] % 64,
{
}

/// The first byte of a number is its highest.
pub proof fn numbers_are_read_from_the_highest_byte(bytes: Seq<u8>, next: u8)
    ensures
        big_endian(Seq::empty()) == 0,
        big_endian(bytes.push(next)) == 256 * big_endian(bytes) + next,
{
    assert(bytes.push(next).drop_last() =~= bytes);
}

} // verus!
