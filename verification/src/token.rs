use vstd::prelude::*;

verus! {

/// A payment-asset identifier, as raw bytes. The designated native-coin
/// sentinel is the byte string "EGLD"; every other well-formed identifier
/// names a fungible or non-fungible on-chain asset.
pub type TokenId = Vec<u8>;

/// The native-coin sentinel identifier, "EGLD".
pub open spec fn egld_bytes() -> Seq<u8> {
    seq![69u8, 71u8, 76u8, 68u8]
}

/// Ticker characters are uppercase letters or digits.
pub open spec fn is_ticker_char(c: u8) -> bool {
    (65 <= c && c <= 90) || (48 <= c && c <= 57)
}

/// The random suffix holds lowercase letters or digits.
pub open spec fn is_random_char(c: u8) -> bool {
    (97 <= c && c <= 122) || (48 <= c && c <= 57)
}

/// A well-formed on-chain asset identifier: a ticker of 3 to 10 uppercase
/// alphanumeric bytes, a dash, and 6 lowercase alphanumeric bytes.
pub open spec fn valid_esdt_identifier(s: Seq<u8>) -> bool {
    let n = s.len() as int;
    &&& 10 <= n <= 17
    &&& forall|i: int| 0 <= i < n - 7 ==> is_ticker_char(#[trigger] s[i])
    &&& s[n - 7] == 45
    &&& forall|i: int| n - 6 <= i < n ==> is_random_char(#[trigger] s[i])
}

/// A valid asset identifier is either the native-coin sentinel or a
/// well-formed on-chain asset identifier.
pub open spec fn spec_token_valid(s: Seq<u8>) -> bool {
    s == egld_bytes() || valid_esdt_identifier(s)
}

/// Relies on `multiversx_sc::chain_core::token_identifier_util::
/// validate_token_identifier`: it accepts exactly the byte strings of length
/// 10 to 17 whose ticker (all but the last 7 bytes) is uppercase
/// alphanumeric, whose next byte is a dash, and whose last 6 bytes are
/// lowercase alphanumeric.
#[verifier::external_body]
fn validate_esdt_identifier(token_id: &TokenId) -> (r: bool)
    ensures
        r == valid_esdt_identifier(token_id@),
{
    multiversx_sc::chain_core::token_identifier_util::validate_token_identifier(
        token_id.as_slice(),
    )
}

/// Whether `token_id` is the native-coin sentinel.
pub fn is_egld(token_id: &TokenId) -> (r: bool)
    ensures
        r == (token_id@ == egld_bytes()),
{
    if token_id.len() != 4 {
        proof {
            assert(token_id@ != egld_bytes());
        }
        return false;
    }
    let r = token_id[0] == 69 && token_id[1] == 71 && token_id[2] == 76 && token_id[3]
        == 68;
    proof {
        if r {
            assert(token_id@ =~= egld_bytes());
        } else {
            assert(token_id@ != egld_bytes());
        }
    }
    r
}

/// Whether `token_id` is acceptable as an allowed-asset policy value: the
/// native-coin sentinel is always valid, anything else must be a well-formed
/// on-chain asset identifier.
pub fn is_valid_token(token_id: &TokenId) -> (r: bool)
    ensures
        r == spec_token_valid(token_id@),
{
    if is_egld(token_id) {
        true
    } else {
        validate_esdt_identifier(token_id)
    }
}

} // verus!
