use solana_cli::accounts::{
    decode_funded_account, read_mint_decimals, screen_largest_accounts, DecodeError,
    LargestAccountEntry,
};
use solana_cli::amounts::parse_raw_amount;
use solana_cli::cache::{DecimalsCache, MetadataCache, PriceCache};
use solana_cli::config::{clamp_page_value, over_fetch_page_size, resolve_api_key};
use solana_cli::display_count;
use solana_cli::enrich::{enrich_holdings, holding_value_micro, ResolvedHolding};
use solana_cli::holders::{aggregate_and_rank, AggregatedHolder, FundedAccount};
use solana_cli::metadata::{metadata_from_parts, TokenMetadata};

use spl_token::solana_program::program_option::COption;
use spl_token::solana_program::program_pack::Pack;
use spl_token::solana_program::pubkey::Pubkey;
use spl_token::state::{Account, AccountState, Mint};

fn funded(token_account: &str, owner: &[u8], amount: u128) -> FundedAccount {
    FundedAccount {
        token_account: token_account.to_string(),
        owner: owner.to_vec(),
        amount,
    }
}

fn plain_metadata() -> TokenMetadata {
    TokenMetadata {
        name: None,
        symbol: None,
        decimals: None,
        price_micro: None,
    }
}

fn holding(mint: &str, amount_raw: u64, decimals: u8, price_micro: Option<u64>) -> ResolvedHolding {
    ResolvedHolding {
        mint: mint.to_string(),
        amount_raw,
        decimals,
        metadata: plain_metadata(),
        price_micro,
    }
}

#[test]
fn aggregation_merges_owners_and_drops_empty() {
    let accounts = vec![
        funded("A", b"X", 100),
        funded("B", b"Y", 0),
        funded("C", b"X", 50),
    ];
    let holders = aggregate_and_rank(&accounts);
    assert_eq!(holders.len(), 1);
    assert_eq!(holders[0].owner, b"X".to_vec());
    assert_eq!(holders[0].total_raw, 150);
    assert_eq!(holders[0].account_count(), 2);
    assert_eq!(holders[0].primary_account(), Some("A"));
}

#[test]
fn aggregation_conserves_the_input_sum() {
    let accounts = vec![
        funded("A", b"X", 7),
        funded("B", b"Y", 5),
        funded("C", b"Z", 0),
        funded("D", b"Y", 11),
    ];
    let holders = aggregate_and_rank(&accounts);
    let total: u128 = holders.iter().map(|h| h.total_raw).sum();
    assert_eq!(total, 7 + 5 + 11);
}

#[test]
fn ranking_is_non_increasing() {
    let accounts = vec![
        funded("A", b"low", 3),
        funded("B", b"high", 90),
        funded("C", b"mid", 40),
        funded("D", b"mid", 2),
    ];
    let holders = aggregate_and_rank(&accounts);
    assert_eq!(holders.len(), 3);
    for pair in holders.windows(2) {
        assert!(pair[0].total_raw >= pair[1].total_raw);
    }
    assert_eq!(holders[0].owner, b"high".to_vec());
    assert_eq!(holders[1].owner, b"mid".to_vec());
    assert_eq!(holders[1].total_raw, 42);
}

#[test]
fn all_zero_owner_never_appears() {
    let accounts = vec![
        funded("A", b"empty", 0),
        funded("B", b"empty", 0),
        funded("C", b"rich", 1),
    ];
    let holders = aggregate_and_rank(&accounts);
    assert_eq!(holders.len(), 1);
    assert!(holders.iter().all(|h: &AggregatedHolder| h.owner != b"empty".to_vec()));
}

#[test]
fn price_cache_miss_then_hit_without_second_request() {
    let mut cache = PriceCache::new();
    let mint = "M".to_string();
    let mut requests = 0usize;

    // First call: the cache misses, the driver issues its one request,
    // which fails, and the miss is memoized.
    let first = match cache.get(&mint) {
        Some(v) => *v,
        None => {
            requests += 1;
            let fetched: Option<u64> = None;
            cache.put(&mint, fetched);
            fetched
        }
    };
    assert_eq!(first, None);
    assert_eq!(requests, 1);

    // Second call: answered from the cache, no new request.
    let second = match cache.get(&mint) {
        Some(v) => *v,
        None => {
            requests += 1;
            cache.put(&mint, None);
            None
        }
    };
    assert_eq!(second, None);
    assert_eq!(requests, 1);
}

#[test]
fn price_cache_returns_the_stored_price() {
    let mut cache = PriceCache::new();
    let mint = "So11111111111111111111111111111111111111112".to_string();
    cache.put(&mint, Some(1_250_000));
    assert_eq!(cache.get(&mint), Some(&Some(1_250_000)));
    let other = "other".to_string();
    assert_eq!(cache.get(&other), None);
}

#[test]
fn put_if_absent_keeps_what_a_fetch_established() {
    let mut cache = DecimalsCache::new();
    let mint = "M".to_string();
    cache.put(&mint, 9);
    cache.put_if_absent(&mint, 6);
    assert_eq!(cache.get(&mint), Some(&9));
    let fresh = "N".to_string();
    cache.put_if_absent(&fresh, 6);
    assert_eq!(cache.get(&fresh), Some(&6));
}

#[test]
fn metadata_cache_round_trips_metadata() {
    let mut cache = MetadataCache::new();
    let mint = "M".to_string();
    let meta = metadata_from_parts(
        Some("Wrapped SOL".to_string()),
        Some("wSOL".to_string()),
        None,
        Some(9),
        Some(155_000_000),
    );
    cache.put(&mint, meta);
    let cached = cache.get(&mint).unwrap();
    assert_eq!(cached.symbol.as_deref(), Some("wSOL"));
    assert_eq!(cached.decimals, Some(9));
}

#[test]
fn enrichment_excludes_subject_and_empty_and_unpriced() {
    let subject = "SUBJECT".to_string();
    let holdings = vec![
        holding("SUBJECT", 500, 0, Some(1)),
        holding("kept-small", 10, 0, Some(1_000_000)),
        holding("empty", 0, 0, Some(1_000_000)),
        holding("unpriced", 99, 0, None),
        holding("kept-large", 10, 0, Some(9_000_000)),
    ];
    let report = enrich_holdings(&subject, holdings, 10);
    assert_eq!(report.len(), 2);
    assert!(report.iter().all(|h| h.mint != "SUBJECT"));
    assert!(report.iter().all(|h| h.amount_raw > 0));
    assert_eq!(report[0].mint, "kept-large");
    assert_eq!(report[0].value_micro, 90_000_000);
    assert_eq!(report[1].mint, "kept-small");
    assert_eq!(report[1].value_micro, 10_000_000);
}

#[test]
fn enrichment_truncates_to_the_limit() {
    let subject = "S".to_string();
    let holdings = vec![
        holding("a", 1, 0, Some(10)),
        holding("b", 1, 0, Some(30)),
        holding("c", 1, 0, Some(20)),
    ];
    let report = enrich_holdings(&subject, holdings, 2);
    assert_eq!(report.len(), 2);
    assert_eq!(report[0].mint, "b");
    assert_eq!(report[1].mint, "c");
}

#[test]
fn holding_values_scale_by_decimals() {
    // 1500 raw units of a 3-decimal token at 2 USD each: 1.5 * 2_000_000.
    assert_eq!(holding_value_micro(2_000_000, 1500, 3), 3_000_000);
    assert_eq!(holding_value_micro(5, 7, 0), 35);
    // A divisor beyond any representable value makes the value zero.
    assert_eq!(holding_value_micro(u64::MAX, u64::MAX, 77), 0);
    assert_eq!(holding_value_micro(1_000_000, 1, 6), 1);
}

#[test]
fn amount_strings_parse_or_read_zero() {
    assert_eq!(parse_raw_amount("123"), 123);
    assert_eq!(parse_raw_amount("0"), 0);
    assert_eq!(parse_raw_amount(""), 0);
    assert_eq!(parse_raw_amount("12a"), 0);
    assert_eq!(parse_raw_amount("-5"), 0);
    assert_eq!(
        parse_raw_amount("340282366920938463463374607431768211455"),
        u128::MAX
    );
    // One past the largest representable value reads as zero.
    assert_eq!(parse_raw_amount("340282366920938463463374607431768211456"), 0);
}

#[test]
fn labels_join_symbol_and_name() {
    let meta = metadata_from_parts(
        Some("Wrapped SOL".to_string()),
        Some("wSOL".to_string()),
        None,
        None,
        None,
    );
    assert_eq!(meta.label("fallback"), "wSOL / Wrapped SOL");

    let symbol_only = metadata_from_parts(None, Some("wSOL".to_string()), None, None, None);
    assert_eq!(symbol_only.label("fallback"), "wSOL");

    let same = metadata_from_parts(
        Some("wSOL".to_string()),
        Some("wSOL".to_string()),
        None,
        None,
        None,
    );
    assert_eq!(same.label("fallback"), "wSOL");

    let name_only = metadata_from_parts(Some("Wrapped SOL".to_string()), None, None, None, None);
    assert_eq!(name_only.label("fallback"), "Wrapped SOL");

    let nothing = metadata_from_parts(None, Some(String::new()), None, None, None);
    assert_eq!(nothing.label("fallback"), "fallback");
}

#[test]
fn metadata_parts_clamp_decimals_and_prefer_content_symbol() {
    let meta = metadata_from_parts(
        None,
        Some("A".to_string()),
        Some("B".to_string()),
        Some(300),
        None,
    );
    assert_eq!(meta.symbol.as_deref(), Some("A"));
    assert_eq!(meta.decimals, None);

    let meta = metadata_from_parts(None, None, Some("B".to_string()), Some(9), Some(4));
    assert_eq!(meta.symbol.as_deref(), Some("B"));
    assert_eq!(meta.decimals, Some(9));
    assert_eq!(meta.price_micro, Some(4));

    let meta = metadata_from_parts(None, None, None, Some(-1), None);
    assert_eq!(meta.decimals, None);
}

fn packed_token_account(owner: Pubkey, amount: u64) -> Vec<u8> {
    let account = Account {
        mint: Pubkey::new_from_array([7u8; 32]),
        owner,
        amount,
        delegate: COption::None,
        state: AccountState::Initialized,
        is_native: COption::None,
        delegated_amount: 0,
        close_authority: COption::None,
    };
    let mut data = vec![0u8; Account::LEN];
    Account::pack(account, &mut data).unwrap();
    data
}

#[test]
fn packed_accounts_decode_to_their_owner() {
    let owner = Pubkey::new_from_array([42u8; 32]);
    let data = packed_token_account(owner, 77);
    let address = "addr".to_string();
    let decoded = decode_funded_account(&address, "77", &data).unwrap().unwrap();
    assert_eq!(decoded.owner, owner.to_bytes().to_vec());
    assert_eq!(decoded.amount, 77);
    assert_eq!(decoded.token_account, "addr");
}

#[test]
fn empty_packed_accounts_decode_to_nothing() {
    let owner = Pubkey::new_from_array([42u8; 32]);
    let data = packed_token_account(owner, 0);
    let address = "addr".to_string();
    assert!(decode_funded_account(&address, "0", &data).unwrap().is_none());
}

#[test]
fn malformed_account_data_is_a_hard_error() {
    let address = "addr".to_string();
    let err = decode_funded_account(&address, "5", &[1, 2, 3]).unwrap_err();
    assert_eq!(err, DecodeError::MalformedTokenAccount);

    // Right length, but uninitialized state.
    let data = vec![0u8; 165];
    assert!(decode_funded_account(&address, "5", &data).is_err());
}

#[test]
fn packed_mints_report_their_decimals() {
    let mint = Mint {
        mint_authority: COption::Some(Pubkey::new_from_array([1u8; 32])),
        supply: 1_000_000,
        decimals: 7,
        is_initialized: true,
        freeze_authority: COption::None,
    };
    let mut data = vec![0u8; Mint::LEN];
    Mint::pack(mint, &mut data).unwrap();
    assert_eq!(read_mint_decimals(&data), Ok(7));

    assert_eq!(read_mint_decimals(&[0u8; 82]), Err(DecodeError::MalformedMint));
    assert_eq!(read_mint_decimals(&[]), Err(DecodeError::MalformedMint));
}

#[test]
fn screening_drops_unparseable_addresses() {
    let good = solana_pubkey::Pubkey::new_from_array([9u8; 32]);
    let entries = vec![
        LargestAccountEntry {
            address: good.to_string(),
            amount_text: "10".to_string(),
        },
        LargestAccountEntry {
            address: "not-base58-0OIl".to_string(),
            amount_text: "20".to_string(),
        },
    ];
    let screened = screen_largest_accounts(entries);
    assert_eq!(screened.len(), 1);
    assert_eq!(screened[0].address, good.to_string());
    assert_eq!(screened[0].amount_text, "10");
    assert_eq!(screened[0].account_key, good.to_bytes().to_vec());
}

#[test]
fn display_count_clamps_both_ways() {
    assert_eq!(display_count(10, 3), 3);
    assert_eq!(display_count(2, 10), 2);
    assert_eq!(display_count(2, 0), 1);
    assert_eq!(display_count(0, 5), 0);
}

#[test]
fn api_key_prefers_a_non_blank_flag() {
    assert_eq!(
        resolve_api_key(Some("key".to_string()), Some("env".to_string())),
        Some("key".to_string())
    );
    assert_eq!(
        resolve_api_key(Some("   ".to_string()), Some("env".to_string())),
        Some("env".to_string())
    );
    assert_eq!(resolve_api_key(None, Some("env".to_string())), Some("env".to_string()));
    assert_eq!(resolve_api_key(Some(String::new()), None), None);
    assert_eq!(resolve_api_key(None, None), None);
}

#[test]
fn paging_values_clamp_to_the_request_type() {
    assert_eq!(clamp_page_value(1), 1);
    assert_eq!(clamp_page_value(1 << 40), u32::MAX);
    assert_eq!(over_fetch_page_size(5), 25);
    assert_eq!(over_fetch_page_size(0), 0);
    assert_eq!(over_fetch_page_size(usize::MAX), u32::MAX);
}
