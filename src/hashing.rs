use vstd::prelude::*;
use crate::error::{ErrorKind, SigniaError};
use crate::strs::str_eq;

verus! {

/// The SHA-256 digest of a byte string.
pub uninterp spec fn sha256_of(b: Seq<u8>) -> Seq<u8>;

/// Relies on `sha2::Sha256::digest`: the SHA-256 digest, 32 bytes long.
#[verifier::external_body]
fn sha256_raw(b: &[u8]) -> (r: Vec<u8>)
    ensures
        r@ == sha256_of(b@),
        r@.len() == 32,
{
    <sha2::Sha256 as sha2::Digest>::digest(b).to_vec()
}

/// Lowercase hexadecimal digit of a nibble.
pub open spec fn hex_digit(n: u8) -> char {
    if n < 10 {
        (('0' as u8) + n) as char
    } else {
        (('a' as u8) + n - 10) as char
    }
}

/// Lowercase hexadecimal text of a byte string, two digits per byte.
pub open spec fn hex_of(b: Seq<u8>) -> Seq<char>
    decreases b.len(),
{
    if b.len() == 0 {
        Seq::empty()
    } else {
        hex_of(b.drop_last()) + seq![hex_digit(b.last() / 16), hex_digit(b.last() % 16)]
    }
}

pub proof fn lemma_hex_len(b: Seq<u8>)
    ensures
        hex_of(b).len() == 2 * b.len(),
    decreases b.len(),
{
    if b.len() > 0 {
        lemma_hex_len(b.drop_last());
    }
}

/// Value of a hexadecimal digit, either case.
pub open spec fn hex_val(c: char) -> Option<u8> {
    if '0' <= c && c <= '9' {
        Some(((c as u8) - ('0' as u8)) as u8)
    } else if 'a' <= c && c <= 'f' {
        Some(((c as u8) - ('a' as u8) + 10) as u8)
    } else if 'A' <= c && c <= 'F' {
        Some(((c as u8) - ('A' as u8) + 10) as u8)
    } else {
        None
    }
}

/// Text that decodes as hexadecimal: an even number of hex digits.
pub open spec fn is_hex(s: Seq<char>) -> bool {
    s.len() % 2 == 0 && forall|i: int| 0 <= i < s.len() ==> (#[trigger] hex_val(s[i])) is Some
}

/// The bytes that hexadecimal text stands for.
pub open spec fn hex_bytes(s: Seq<char>) -> Seq<u8> {
    Seq::new(
        s.len() / 2,
        |i: int| (hex_val(s[2 * i])->0 * 16 + hex_val(s[2 * i + 1])->0) as u8,
    )
}

/// Relies on `hex::encode`: lowercase digits, high nibble first, two per byte.
#[verifier::external_body]
fn hex_encode(b: &[u8]) -> (r: String)
    ensures
        r@ == hex_of(b@),
{
    hex::encode(b)
}

/// Relies on `hex::decode`: succeeds exactly on an even number of hex digits
/// of either case, and gives one byte per pair.
#[verifier::external_body]
fn hex_decode(s: &str) -> (r: Option<Vec<u8>>)
    ensures
        r is Some <==> is_hex(s@),
        r is Some ==> r->0@ == hex_bytes(s@),
{
    hex::decode(s).ok()
}

/// Domain label of Merkle leaves.
pub const MERKLE_LEAF: &'static str = "signia.v1.merkle.leaf";
/// Domain label of Merkle internal nodes.
pub const MERKLE_NODE: &'static str = "signia.v1.merkle.node";
pub const DOMAIN_SCHEMA: &'static str = "signia.v1.schema";
pub const DOMAIN_MANIFEST: &'static str = "signia.v1.manifest";
pub const DOMAIN_PROOF: &'static str = "signia.v1.proof";

/// UTF-8 bytes of the leaf label.
pub open spec fn leaf_label() -> Seq<u8> {
    seq![115u8, 105, 103, 110, 105, 97, 46, 118, 49, 46, 109, 101, 114, 107, 108, 101, 46, 108, 101, 97, 102]
}

/// UTF-8 bytes of the node label.
pub open spec fn node_label() -> Seq<u8> {
    seq![115u8, 105, 103, 110, 105, 97, 46, 118, 49, 46, 109, 101, 114, 107, 108, 101, 46, 110, 111, 100, 101]
}

/// Merkle leaf hash: SHA-256 over the leaf label and the payload.
pub open spec fn leaf_hash(p: Seq<u8>) -> Seq<u8> {
    sha256_of(leaf_label() + p)
}

/// Merkle node hash: SHA-256 over the node label and both children.
pub open spec fn node_hash(l: Seq<u8>, r: Seq<u8>) -> Seq<u8> {
    sha256_of(node_label() + l + r)
}

pub fn leaf_label_bytes() -> (r: Vec<u8>)
    ensures
        r@ == leaf_label(),
{
    let r: Vec<u8> = vec![115u8, 105, 103, 110, 105, 97, 46, 118, 49, 46, 109, 101, 114, 107, 108, 101, 46, 108, 101, 97, 102];
    assert(r@ =~= leaf_label());
    r
}

pub fn node_label_bytes() -> (r: Vec<u8>)
    ensures
        r@ == node_label(),
{
    let r: Vec<u8> = vec![115u8, 105, 103, 110, 105, 97, 46, 118, 49, 46, 109, 101, 114, 107, 108, 101, 46, 110, 111, 100, 101];
    assert(r@ =~= node_label());
    r
}

/// Appends `b` to `out`.
pub fn extend(out: &mut Vec<u8>, b: &[u8])
    ensures
        final(out)@ == old(out)@ + b@,
{
    let mut i: usize = 0;
    while i < b.len()
        invariant
            i <= b@.len(),
            out@ == old(out)@ + b@.subrange(0, i as int),
        decreases b@.len() - i,
    {
        out.push(b[i]);
        i = i + 1;
    }
    assert(b@.subrange(0, b@.len() as int) =~= b@);
}

/// Hash algorithms of the core.
#[derive(Debug, Clone, Copy, PartialEq, Eq, Structural)]
pub enum HashAlg {
    Sha256,
}

impl HashAlg {
    /// Accepts `sha256` only.
    pub fn from_str(s: &str) -> (r: Result<HashAlg, SigniaError>)
        ensures
            r is Ok <==> s@ == "sha256"@,
            r is Ok ==> r->Ok_0 == HashAlg::Sha256,
            r is Err ==> r->Err_0.kind == ErrorKind::InvalidArgument,
    {
        if str_eq(s, "sha256") {
            Ok(HashAlg::Sha256)
        } else {
            Err(SigniaError::with_detail(ErrorKind::InvalidArgument, "unsupported hash algorithm: ", s))
        }
    }
}

/// Digest of `bytes` under `alg`.
pub fn hash_bytes(alg: HashAlg, bytes: &[u8]) -> (r: Vec<u8>)
    ensures
        r@ == sha256_of(bytes@),
        r@.len() == 32,
{
    match alg {
        HashAlg::Sha256 => sha256_raw(bytes),
    }
}

/// Lowercase hex of the SHA-256 digest of `bytes`.
pub fn hash_bytes_hex(bytes: &[u8]) -> (r: String)
    ensures
        r@ == hex_of(sha256_of(bytes@)),
        r@.len() == 64,
{
    let h = hash_bytes(HashAlg::Sha256, bytes);
    proof {
        lemma_hex_len(h@);
    }
    hex_encode(h.as_slice())
}

/// Lowercase hex of raw bytes.
pub fn to_hex(bytes: &[u8]) -> (r: String)
    ensures
        r@ == hex_of(bytes@),
{
    hex_encode(bytes)
}

/// Decodes hexadecimal text.
pub fn from_hex(s: &str) -> (r: Option<Vec<u8>>)
    ensures
        r is Some <==> is_hex(s@),
        r is Some ==> r->0@ == hex_bytes(s@),
{
    hex_decode(s)
}

/// Raw Merkle leaf hash of a payload.
pub fn merkle_leaf(payload: &[u8]) -> (r: Vec<u8>)
    ensures
        r@ == leaf_hash(payload@),
{
    let mut buf = leaf_label_bytes();
    extend(&mut buf, payload);
    sha256_raw(buf.as_slice())
}

/// Raw Merkle node hash of two children.
pub fn merkle_node(l: &[u8], r: &[u8]) -> (h: Vec<u8>)
    ensures
        h@ == node_hash(l@, r@),
        h@.len() == 32,
{
    let mut buf = node_label_bytes();
    extend(&mut buf, l);
    extend(&mut buf, r);
    sha256_raw(buf.as_slice())
}

/// Domain-separated leaf hash in hex, for the named algorithm.
pub fn hash_merkle_leaf_hex(alg: &str, payload: &[u8]) -> (r: Result<String, SigniaError>)
    ensures
        r is Ok <==> alg@ == "sha256"@,
        r is Ok ==> r->Ok_0@ == hex_of(leaf_hash(payload@)),
{
    let _a = HashAlg::from_str(alg)?;
    let h = merkle_leaf(payload);
    Ok(hex_encode(h.as_slice()))
}

/// Domain-separated node hash in hex; both children are given in hex.
pub fn hash_merkle_node_hex(alg: &str, left_hex: &str, right_hex: &str) -> (r: Result<
    String,
    SigniaError,
>)
    ensures
        r is Ok <==> (alg@ == "sha256"@ && is_hex(left_hex@) && is_hex(right_hex@)),
        r is Ok ==> r->Ok_0@ == hex_of(node_hash(hex_bytes(left_hex@), hex_bytes(right_hex@))),
{
    let _a = HashAlg::from_str(alg)?;
    let left = match hex_decode(left_hex) {
        Some(b) => b,
        None => { return Err(SigniaError::invalid_argument("invalid left hex")); },
    };
    let right = match hex_decode(right_hex) {
        Some(b) => b,
        None => { return Err(SigniaError::invalid_argument("invalid right hex")); },
    };
    let h = merkle_node(left.as_slice(), right.as_slice());
    Ok(hex_encode(h.as_slice()))
}

} // verus!
