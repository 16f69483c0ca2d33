//! Decoding of raw on-chain account data into the plain values the
//! report works on: screening the reported holder addresses, reading the
//! owner out of packed token-account data, and reading a mint's decimals.
//! The byte-level unpacking itself is the token program binding's job and
//! is relied on, not reimplemented; data that does not decode is a hard
//! error for the invocation, since it means malformed on-chain state.

use vstd::prelude::*;
use vstd::string::StringSliceAdditionalSpecFns;
use spl_token::solana_program::program_pack::Pack;
use crate::amounts::{parse_raw_amount, raw_amount_of};
use crate::holders::FundedAccount;

verus! {

/// A four-byte optional-field tag of the packed token layouts: absent or
/// present, nothing else.
pub open spec fn coption_tag_wf(tag: Seq<u8>) -> bool {
    tag == seq![0u8, 0u8, 0u8, 0u8] || tag == seq![1u8, 0u8, 0u8, 0u8]
}

/// Well-formed packed token-account data: the fixed 165-byte layout with
/// valid option tags, a known state byte, and a state other than
/// uninitialized.
pub open spec fn token_account_wf(data: Seq<u8>) -> bool {
    &&& data.len() == 165
    &&& coption_tag_wf(data.subrange(72, 76))
    &&& (data[108] == 1 || data[108] == 2)
    &&& coption_tag_wf(data.subrange(109, 113))
    &&& coption_tag_wf(data.subrange(129, 133))
}

/// The owner field of packed token-account data: bytes 32 to 64.
pub open spec fn token_account_owner(data: Seq<u8>) -> Seq<u8> {
    data.subrange(32, 64)
}

/// Well-formed packed mint data: the fixed 82-byte layout with valid
/// authority tags and the initialized flag set.
pub open spec fn mint_wf(data: Seq<u8>) -> bool {
    &&& data.len() == 82
    &&& coption_tag_wf(data.subrange(0, 4))
    &&& data[45] == 1
    &&& coption_tag_wf(data.subrange(46, 50))
}

/// The decimals field of packed mint data: byte 44.
pub open spec fn mint_decimals(data: Seq<u8>) -> u8 {
    data[44]
}

/// Relies on spl_token::state::Account::unpack: it succeeds exactly on
/// the initialized 165-byte account layout (option tags at 72, 109 and
/// 129 valid, state byte 1 or 2), and the owner address is the 32 bytes
/// at offset 32.
#[verifier::external_body]
fn unpack_token_account_owner(data: &[u8]) -> (r: Option<Vec<u8>>)
    ensures
        r is Some <==> token_account_wf(data@),
        r matches Some(o) ==> o@ == token_account_owner(data@),
{
    match spl_token::state::Account::unpack(data) {
        Ok(account) => Some(account.owner.to_bytes().to_vec()),
        Err(_) => None,
    }
}

/// Relies on spl_token::state::Mint::unpack: it succeeds exactly on the
/// initialized 82-byte mint layout (authority tags at 0 and 46 valid,
/// initialized flag at 45 set), and the decimals are the byte at
/// offset 44.
#[verifier::external_body]
fn unpack_mint_decimals(data: &[u8]) -> (r: Option<u8>)
    ensures
        r is Some <==> mint_wf(data@),
        r matches Some(d) ==> d == mint_decimals(data@),
{
    match spl_token::state::Mint::unpack(data) {
        Ok(mint) => Some(mint.decimals),
        Err(_) => None,
    }
}

/// The 32 address bytes a base58 address string decodes to, when it is a
/// valid address; what solana_pubkey::Pubkey::from_str computes, which
/// depends on the characters alone.
pub uninterp spec fn pubkey_bytes_of(s: Seq<char>) -> Option<Seq<u8>>;

/// Relies on solana_pubkey::Pubkey::from_str: base58 decoding of an
/// address, a function of the characters alone; a valid address decodes
/// to exactly 32 bytes.
#[verifier::external_body]
fn parse_pubkey_bytes(s: &str) -> (r: Option<Vec<u8>>)
    ensures
        r is Some <==> pubkey_bytes_of(s@) is Some,
        r matches Some(b) ==> pubkey_bytes_of(s@) == Some(b@) && b@.len() == 32,
{
    match <solana_pubkey::Pubkey as core::str::FromStr>::from_str(s) {
        Ok(key) => Some(key.to_bytes().to_vec()),
        Err(_) => None,
    }
}

/// Raw data that could not be decoded: malformed on-chain state, fatal
/// for the invocation it was met in.
#[derive(PartialEq, Eq, Structural, Clone, Copy, Debug)]
pub enum DecodeError {
    /// Packed token-account data did not decode.
    MalformedTokenAccount,
    /// Packed mint data did not decode.
    MalformedMint,
}

/// Reads a mint's decimals out of its packed account data.
pub fn read_mint_decimals(data: &[u8]) -> (r: Result<u8, DecodeError>)
    ensures
        r is Ok <==> mint_wf(data@),
        r matches Ok(d) ==> d == mint_decimals(data@),
        r matches Err(e) ==> e == DecodeError::MalformedMint,
{
    match unpack_mint_decimals(data) {
        Some(d) => Ok(d),
        None => Err(DecodeError::MalformedMint),
    }
}

/// Decodes one reported holder account: the owner comes out of the
/// packed data, the raw balance out of the node's amount string, and an
/// empty account is dropped rather than kept.
pub fn decode_funded_account(address: &String, amount_text: &str, data: &[u8]) -> (r: Result<
    Option<FundedAccount>,
    DecodeError,
>)
    ensures
        r is Ok <==> token_account_wf(data@),
        r matches Err(e) ==> e == DecodeError::MalformedTokenAccount,
        token_account_wf(data@) && raw_amount_of(amount_text.spec_bytes()) == 0 ==> r == Ok::<
            Option<FundedAccount>,
            DecodeError,
        >(None),
        token_account_wf(data@) && raw_amount_of(amount_text.spec_bytes()) > 0 ==> (r matches Ok(f)
            && f matches Some(f) && f.token_account@ == address@ && f.owner@
            == token_account_owner(data@) && f.amount == raw_amount_of(amount_text.spec_bytes())),
{
    match unpack_token_account_owner(data) {
        Some(owner) => {
            let amount = parse_raw_amount(amount_text);
            if amount == 0 {
                Ok(None)
            } else {
                Ok(
                    Some(
                        FundedAccount {
                            token_account: address.clone(),
                            owner,
                            amount,
                        },
                    ),
                )
            }
        },
        None => Err(DecodeError::MalformedTokenAccount),
    }
}

/// One entry of the node's largest-accounts answer, as plain strings.
pub struct LargestAccountEntry {
    /// The token account's address, base58.
    pub address: String,
    /// The raw balance, as the node's decimal string.
    pub amount_text: String,
}

/// A largest-accounts entry whose address screened as a valid key.
pub struct ScreenedAccount {
    /// The token account's address, base58.
    pub address: String,
    /// The raw balance, as the node's decimal string.
    pub amount_text: String,
    /// The token account's address, decoded to its 32 bytes.
    pub account_key: Vec<u8>,
}

/// The views of the screened entries of `s`, in order: each entry whose
/// address is a valid key, with its decoded bytes.
pub open spec fn screened_views(s: Seq<LargestAccountEntry>) -> Seq<
    (Seq<char>, Seq<char>, Seq<u8>),
>
    decreases s.len(),
{
    if s.len() == 0 {
        Seq::empty()
    } else {
        screened_views(s.drop_last()) + match pubkey_bytes_of(s.last().address@) {
            Some(k) => seq![(s.last().address@, s.last().amount_text@, k)],
            None => Seq::empty(),
        }
    }
}

/// The view triple of one screened entry.
pub open spec fn screened_view_of(a: ScreenedAccount) -> (Seq<char>, Seq<char>, Seq<u8>) {
    (a.address@, a.amount_text@, a.account_key@)
}

/// Drops the reported holder accounts whose address does not parse as a
/// key, keeping the rest in order with their decoded address bytes.
pub fn screen_largest_accounts(entries: Vec<LargestAccountEntry>) -> (r: Vec<ScreenedAccount>)
    ensures
        r@.map_values(|a: ScreenedAccount| screened_view_of(a)) == screened_views(entries@),
{
    let ghost all = entries@;
    let mut out: Vec<ScreenedAccount> = Vec::new();
    let mut i: usize = 0;
    while i < entries.len()
        invariant
            i <= all.len(),
            entries@ == all,
            out@.map_values(|a: ScreenedAccount| screened_view_of(a)) == screened_views(
                all.take(i as int),
            ),
        decreases all.len() - i,
    {
        proof {
            assert(all.take(i as int + 1).drop_last() =~= all.take(i as int));
            assert(all.take(i as int + 1).last() == all[i as int]);
        }
        let entry = &entries[i];
        match parse_pubkey_bytes(entry.address.as_str()) {
            Some(key) => {
                out.push(
                    ScreenedAccount {
                        address: entry.address.clone(),
                        amount_text: entry.amount_text.clone(),
                        account_key: key,
                    },
                );
            },
            None => {
            },
        }
        proof {
            assert(out@.map_values(|a: ScreenedAccount| screened_view_of(a)) =~= screened_views(
                all.take(i as int + 1),
            ));
        }
        i += 1;
    }
    proof {
        assert(all.take(all.len() as int) =~= all);
    }
    out
}

} // verus!
