//! Content checks by SHA-256.

use sha2::{Digest, Sha256};
use vstd::prelude::*;

use crate::text::{
    ascii_lower, eq_ignore_ascii_case, hex_lower, law_case_does_not_count, law_hex_reads_back,
    lemma_hex_len, same_ignoring_ascii_case, to_hex,
};

verus! {

/// The SHA-256 digest of `data`, as `sha2::Sha256::digest` computes it.
pub uninterp spec fn sha256(data: Seq<u8>) -> Seq<u8>;

/// `sha2::Sha256::digest`: the digest of `data`, which is 32 bytes and depends on `data` alone.
#[verifier::external_body]
fn digest(data: &[u8]) -> (res: Vec<u8>)
    ensures
        res@ == sha256(data@),
        res@.len() == 32,
{
    Sha256::digest(data).to_vec()
}

/// The SHA-256 digest of `data` in lower-case hexadecimal.
pub fn hex_sha256(data: &[u8]) -> (res: String)
    ensures
        res@ == hex_lower(sha256(data@)),
        res@.len() == 64,
{
    let bytes = digest(data);
    proof {
        lemma_hex_len(bytes@);
    }
    to_hex(&bytes)
}

/// A content whose digest is not the expected one.
#[derive(Debug)]
pub struct ShaMismatch {
    /// The digest that was found, in lower-case hexadecimal.
    pub actual: String,
}

/// Compares a digest that was found with the expected one; both are hexadecimal, in either case.
pub fn check_sha256(actual: String, expect: &str) -> (res: Result<(), ShaMismatch>)
    ensures
        if same_ignoring_ascii_case(actual@, expect@) {
            res is Ok
        } else {
            res == Err::<(), ShaMismatch>(ShaMismatch { actual })
        },
{
    if eq_ignore_ascii_case(&actual, expect) {
        Ok(())
    } else {
        Err(ShaMismatch { actual })
    }
}

/// Whether the digest of `data` is the expected one, given in hexadecimal of either case.
pub open spec fn has_sha256(data: Seq<u8>, expect: Seq<char>) -> bool {
    same_ignoring_ascii_case(hex_lower(sha256(data)), expect)
}

/// Checks that the digest of `data` is the expected one, given in hexadecimal of either case.
pub fn verify_sha256(data: &[u8], expect: &str) -> (res: Result<(), ShaMismatch>)
    ensures
        res is Ok <==> has_sha256(data@, expect@),
        res matches Err(e) ==> e.actual@ == hex_lower(sha256(data@)),
{
    check_sha256(hex_sha256(data), expect)
}

/// Content always passes the check against its own digest.
pub proof fn law_own_digest_is_accepted(data: Seq<u8>)
    ensures
        has_sha256(data, hex_lower(sha256(data))),
{
}

/// A digest is accepted in either case and as no other text: letters `A` to `F` stand for `a` to `f`,
/// and every other character must be the one of the digest.
pub proof fn law_digest_is_compared_without_case(data: Seq<u8>, expect: Seq<char>)
    ensures
        has_sha256(data, expect) <==> {
            &&& expect.len() == hex_lower(sha256(data)).len()
            &&& forall|i: int|
                #![trigger expect[i]]
                0 <= i < expect.len() ==> {
                    ||| expect[i] == hex_lower(sha256(data))[i]
                    ||| 'A' <= expect[i] <= 'Z' && expect[i] as int + 32 == hex_lower(
                        sha256(data),
                    )[i] as int
                }
        },
{
    let own = hex_lower(sha256(data));
    law_case_does_not_count(own, expect);
    lemma_hex_len(sha256(data));
    assert forall|i: int| #![trigger own[i]] 0 <= i < own.len() implies '0' <= own[i] <= '9' || 'a'
        <= own[i] <= 'f' by {
        law_hex_reads_back(sha256(data), i / 2);
    }
    if has_sha256(data, expect) {
        assert forall|i: int| #![trigger expect[i]] 0 <= i < expect.len() implies {
            ||| expect[i] == own[i]
            ||| 'A' <= expect[i] <= 'Z' && expect[i] as int + 32 == own[i] as int
        } by {
            let c = own[i];
        }
    }
    if expect.len() == own.len() && (forall|i: int|
        #![trigger expect[i]]
        0 <= i < expect.len() ==> {
            ||| expect[i] == own[i]
            ||| 'A' <= expect[i] <= 'Z' && expect[i] as int + 32 == own[i] as int
        }) {
        assert forall|i: int| #![trigger own[i]] 0 <= i < own.len() implies {
            ||| own[i] == expect[i]
            ||| 'A' <= own[i] <= 'Z' && expect[i] as int == own[i] as int + 32
            ||| 'A' <= expect[i] <= 'Z' && own[i] as int == expect[i] as int + 32
        } by {
            let c = expect[i];
        }
    }
}

/// Content is accepted under two digests only where these agree without regard to case.
pub proof fn law_one_digest_per_content(data: Seq<u8>, a: Seq<char>, b: Seq<char>)
    requires
        has_sha256(data, a),
        has_sha256(data, b),
    ensures
        same_ignoring_ascii_case(a, b),
{
    let own = hex_lower(sha256(data));
    assert forall|i: int| #![trigger a[i]] 0 <= i < a.len() implies ascii_lower(a[i])
        == ascii_lower(b[i]) by {
        assert(ascii_lower(own[i]) == ascii_lower(a[i]));
        assert(ascii_lower(own[i]) == ascii_lower(b[i]));
    }
}

} // verus!
