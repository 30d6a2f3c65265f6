//! The rules behind the RPC server.

use bitassets_node::hash::{BlockHash, Hash256, MainBlockHash, Txid};
use bitassets_node::net::addr::{IpAddr, SocketAddr};
use bitassets_node::rpc::hex::{decode_memo, decode_msg, encode_msg, FromHexError};
use bitassets_node::rpc::index::{
    get_block_index, get_block_template, get_transaction_info, getblockcount, index_transactions,
    BlockTemplate, EncodedTransaction, FoundTransaction, InPoint, PointedSpentOutput, SpentOutput, TxIn,
};
use bitassets_node::rpc::market::{
    amm_burn, amm_mint, amm_pair, amm_swap, amm_swap_route, dutch_auction_bid,
    dutch_auction_collect, order_assets, AmmError, AmmPoolState, AssetId, AssetOrder, BitAssetId,
    CollectError, DutchAuctionState, SwapDirection,
};
use bitassets_node::rpc::server::{
    broadcasts, custom_err_msg, make_request_id, openapi, plan_servers, private_openapi,
    public_openapi, request_id, server_addresses, Api, PrivateOnlyRpcServerImpl, RpcServerImpl,
};
use bitassets_node::rpc::wallet::{generate_mnemonic, get_wallet_addresses, WalletAddress};
use bitassets_node::transaction::outpoint::OutPoint;
use bitassets_node::types::{Body, Header};
use std::sync::Arc;

fn hash256(byte: u8) -> Hash256 {
    Hash256::from_bytes(&[byte; 32])
}

fn outpoint(n: u8) -> OutPoint {
    OutPoint::Deposit { main_txid: hash256(n), vout: 0 }
}

#[test]
fn messages_are_told_in_hexadecimal() {
    assert_eq!(encode_msg(&vec![1, 2, 3, 15, 16, 255]), "0102030f10ff");
    assert_eq!(encode_msg(&vec![]), "");
}

#[test]
fn hexadecimal_text_of_either_case_decodes() {
    assert_eq!(decode_msg(&"0aFf".to_string()), Ok(vec![10, 255]));
    assert_eq!(decode_msg(&"0x0aFf".to_string()), Ok(vec![10, 255]));
    assert_eq!(decode_msg(&"0X10".to_string()), Ok(vec![16]));
    assert_eq!(decode_msg(&"0x".to_string()), Ok(vec![]));
    let bytes: Vec<u8> = (0..=255).collect();
    assert_eq!(decode_msg(&encode_msg(&bytes)), Ok(bytes));
}

#[test]
fn other_text_does_not_decode() {
    assert_eq!(decode_msg(&"123".to_string()), Err(FromHexError::OddLength));
    assert_eq!(
        decode_msg(&"12g4".to_string()),
        Err(FromHexError::InvalidHexCharacter { c: 'g', index: 2 })
    );
    assert_eq!(
        decode_msg(&"0x1z".to_string()),
        Err(FromHexError::InvalidHexCharacter { c: 'z', index: 1 })
    );
    assert!(decode_msg(&"\u{e9}".to_string()).is_err());
}

#[test]
fn memos_are_optional() {
    assert_eq!(decode_memo(None), Ok(None));
    assert_eq!(decode_memo(Some("beef".to_string())), Ok(Some(vec![0xbe, 0xef])));
    assert_eq!(decode_memo(Some("x".to_string())), Err(FromHexError::OddLength));
}

#[test]
fn block_index_lists_transactions_deposits_and_spends() {
    let txs = vec![
        EncodedTransaction { txid: Txid(hash256(1)), size: 3, encoding: vec![0, 1, 254] },
        EncodedTransaction { txid: Txid(hash256(2)), size: 0, encoding: vec![] },
    ];
    let index = get_block_index(
        &txs,
        vec![(outpoint(1), "first"), (outpoint(2), "second")],
        vec![(outpoint(3), hash256(9))],
    );
    assert_eq!(index.txs.len(), 2);
    assert_eq!(index.txs[0].txid, Txid(hash256(1)));
    assert_eq!(index.txs[0].size, 3);
    assert_eq!(index.txs[0].raw, "0001fe");
    assert_eq!(index.txs[1].raw, "");
    assert_eq!(index.deposits[0].outpoint, outpoint(1));
    assert_eq!(index.deposits[0].output, "first");
    assert_eq!(index.deposits[1].output, "second");
    assert_eq!(index.bundle_spends.len(), 1);
    assert_eq!(index.bundle_spends[0].output, hash256(9));
}

#[test]
fn mempool_transactions_keep_their_order() {
    let txs = vec![
        EncodedTransaction { txid: Txid(hash256(2)), size: 1, encoding: vec![171] },
        EncodedTransaction { txid: Txid(hash256(1)), size: 1, encoding: vec![205] },
    ];
    let index = index_transactions(&txs);
    assert_eq!(index[0].raw, "ab");
    assert_eq!(index[1].raw, "cd");
}

#[test]
fn spent_outputs_point_to_their_origin() {
    let spent = PointedSpentOutput {
        outpoint: outpoint(1),
        output: SpentOutput { output: 5u64, inpoint: InPoint::Withdrawal { m6id: hash256(2) } },
    };
    assert_eq!(spent.outpoint, outpoint(1));
    assert_eq!(spent.output.inpoint, InPoint::Withdrawal { m6id: hash256(2) });
}

#[test]
fn confirmations_count_the_blocks_above() {
    let txin = TxIn { block_hash: BlockHash(hash256(1)), idx: 4 };
    let found = FoundTransaction { txin: Some(txin), fee_sats: Ok(12) };
    let info = get_transaction_info(Some(found), 10, 7).unwrap().unwrap();
    assert_eq!(info.confirmations, Some(3));
    assert_eq!(info.fee_sats, 12);
    assert_eq!(info.txin, Some(txin));
}

#[test]
fn unconfirmed_transactions_have_no_confirmations() {
    let found = FoundTransaction { txin: None, fee_sats: Ok(1) };
    let info = get_transaction_info(Some(found), 0, 5).unwrap().unwrap();
    assert_eq!(info.confirmations, None);
    assert_eq!(get_transaction_info(None, 0, 0), Ok(None));
    let failed = FoundTransaction { txin: None, fee_sats: Err("fee".to_string()) };
    assert_eq!(get_transaction_info(Some(failed), 0, 0), Err("fee".to_string()));
}

#[test]
fn block_count_is_one_more_than_the_height() {
    assert_eq!(getblockcount(None), 0);
    assert_eq!(getblockcount(Some(0)), 1);
    assert_eq!(getblockcount(Some(41)), 42);
}

#[test]
fn assets_are_ordered_by_kind_and_name() {
    let mut low = [0u8; 32];
    low[31] = 255;
    let mut high = [0u8; 32];
    high[0] = 1;
    let low = BitAssetId(low);
    let high = BitAssetId(high);
    assert_eq!(order_assets(AssetId::Bitcoin, AssetId::BitAsset(low)), AssetOrder::Before);
    assert_eq!(order_assets(AssetId::BitAsset(low), AssetId::BitAsset(high)), AssetOrder::Before);
    assert_eq!(
        order_assets(AssetId::BitAssetControl(low), AssetId::BitAsset(high)),
        AssetOrder::After
    );
    assert_eq!(order_assets(AssetId::BitAsset(low), AssetId::BitAsset(low)), AssetOrder::Same);
}

#[test]
fn swaps_go_through_the_pool_of_their_assets() {
    let asset = AssetId::BitAsset(BitAssetId([3; 32]));
    let there = amm_swap_route(AssetId::Bitcoin, asset).unwrap();
    assert_eq!(there.asset0, AssetId::Bitcoin);
    assert_eq!(there.asset1, asset);
    assert_eq!(there.direction, SwapDirection::Asset0ForAsset1);
    let back = amm_swap_route(asset, AssetId::Bitcoin).unwrap();
    assert_eq!(back.asset0, AssetId::Bitcoin);
    assert_eq!(back.direction, SwapDirection::Asset1ForAsset0);
    assert_eq!(amm_swap_route(asset, asset), Err(AmmError::InvalidSwap));
    assert_eq!(amm_pair(AssetId::Bitcoin, asset), (AssetId::Bitcoin, asset));
    assert_eq!(amm_pair(asset, AssetId::Bitcoin), (AssetId::Bitcoin, asset));
    assert_eq!(amm_pair(asset, asset), (asset, asset));
}

#[test]
fn a_swap_gives_what_leaves_the_reserve() {
    let pool = AmmPoolState { reserve0: 100, reserve1: 200, outstanding_lp_tokens: 10 };
    let next = AmmPoolState { reserve0: 110, reserve1: 182, outstanding_lp_tokens: 10 };
    assert_eq!(amm_swap(SwapDirection::Asset0ForAsset1, pool, next), 18);
    let next = AmmPoolState { reserve0: 91, reserve1: 220, outstanding_lp_tokens: 10 };
    assert_eq!(amm_swap(SwapDirection::Asset1ForAsset0, pool, next), 9);
}

#[test]
fn burning_and_minting_tell_the_difference() {
    let pool = AmmPoolState { reserve0: 100, reserve1: 200, outstanding_lp_tokens: 10 };
    let burned = AmmPoolState { reserve0: 90, reserve1: 180, outstanding_lp_tokens: 9 };
    assert_eq!(amm_burn(pool, burned), (10, 20));
    let minted = AmmPoolState { reserve0: 110, reserve1: 220, outstanding_lp_tokens: 11 };
    assert_eq!(amm_mint(pool, minted), 1);
}

fn auction(base_amount_remaining: u64) -> DutchAuctionState {
    DutchAuctionState {
        start_block: 10,
        duration: 5,
        base_asset: AssetId::Bitcoin,
        quote_asset: AssetId::BitAsset(BitAssetId([1; 32])),
        base_amount_remaining,
        quote_amount: 70,
    }
}

#[test]
fn a_bid_gives_what_leaves_the_auction() {
    assert_eq!(dutch_auction_bid(auction(50), auction(20)), 30);
}

#[test]
fn an_auction_is_collected_once_it_is_over() {
    assert_eq!(
        dutch_auction_collect(auction(50), 15),
        Err(CollectError::AuctionNotFinished)
    );
    assert_eq!(dutch_auction_collect(auction(50), 16), Ok((50, 70)));
}

#[test]
fn descriptions_cover_what_is_served() {
    assert_eq!(openapi(), vec![Api::OpenApi, Api::NodePrivate, Api::Node, Api::Wallet]);
    assert_eq!(public_openapi(), vec![Api::OpenApi, Api::Node]);
    assert_eq!(private_openapi(), vec![Api::OpenApi, Api::NodePrivate, Api::Wallet]);
    assert_eq!(RpcServerImpl::<true>.openapi_schema(), openapi());
    assert_eq!(RpcServerImpl::<false>.openapi_schema(), public_openapi());
    assert_eq!(PrivateOnlyRpcServerImpl.openapi_schema(), private_openapi());
}

#[test]
fn different_addresses_take_two_servers() {
    let public = "http://127.0.0.1:6004/".to_string();
    let private = "http://127.0.0.1:6005/".to_string();
    let servers = plan_servers(&private, &public);
    assert_eq!(servers.public.serves, vec![Api::OpenApi, Api::Node]);
    assert_eq!(servers.public.describes, servers.public.serves);
    let private = servers.private.unwrap();
    assert_eq!(private.serves, vec![Api::OpenApi, Api::NodePrivate, Api::Wallet]);
    assert_eq!(private.describes, private.serves);
}

#[test]
fn the_same_address_takes_one_server() {
    let url = "http://127.0.0.1:6004/".to_string();
    let servers = plan_servers(&url, &url.clone());
    assert_eq!(servers.public.serves, openapi());
    assert!(servers.private.is_none());
}

#[test]
fn one_server_has_one_address() {
    let addr = |port| SocketAddr::new(IpAddr::V4(1), port);
    let single = server_addresses(addr(1), None);
    assert_eq!(single._rpc_addr, addr(1));
    assert_eq!(single._private_rpc_addr, addr(1));
    assert_eq!(server_addresses(addr(1), Some(addr(2)))._private_rpc_addr, addr(2));
}

#[test]
fn a_block_template_names_its_hash() {
    let header = Header {
        hash: BlockHash(hash256(5)),
        merkle_root: hash256(1),
        prev_side_hash: None,
        prev_main_hash: MainBlockHash(hash256(2)),
    };
    let body = Body { transactions: vec![], encoding: Arc::new(vec![7]) };
    let template = BlockTemplate { header, body, height: 3, fees_sats: 11 };
    let response = get_block_template(template);
    assert_eq!(response.critical_hash, BlockHash(hash256(5)));
    assert_eq!(response.block.header, header);
    assert_eq!(response.block.height, 3);
    assert_eq!(*response.block.body.encoding, vec![7]);
    assert_eq!(response.fees_sats, 11);
}

#[test]
fn errors_carry_one_code() {
    let err = custom_err_msg("failed".to_string());
    assert_eq!(err.code, -1);
    assert_eq!(err.message, "failed");
}

#[test]
fn request_ids_are_prefixed() {
    assert_eq!(request_id(&"abc".to_string()), Some("req_abc".to_string()));
    assert_eq!(request_id(&"a\nb".to_string()), None);
    assert_eq!(request_id(&"a\u{7f}".to_string()), None);
    assert_eq!(request_id(&"\t\u{e9}".to_string()), Some("req_\t\u{e9}".to_string()));
}

#[test]
fn request_ids_are_made_of_digits() {
    let id = make_request_id().unwrap();
    assert_eq!(id.len(), 36);
    assert!(id.starts_with("req_"));
    assert!(id[4..].chars().all(|c| c.is_ascii_digit() || ('a'..='f').contains(&c)));
    assert_eq!(&id[16..17], "4");
    assert!("89ab".contains(&id[20..21]));
    assert_ne!(make_request_id(), make_request_id());
}

#[test]
fn transactions_are_broadcast_on_demand() {
    assert!(broadcasts(Some(true)));
    assert!(!broadcasts(Some(false)));
    assert!(!broadcasts(None));
}

#[test]
fn wallet_addresses_are_sorted_by_text() {
    let address = |byte: u8, text: &str| WalletAddress {
        address: [byte; 20],
        base58: text.to_string(),
    };
    let sorted = get_wallet_addresses(vec![
        address(1, "b"),
        address(2, "B"),
        address(3, "ab"),
        address(4, "a"),
    ]);
    let texts: Vec<&str> = sorted.iter().map(|address| address.base58.as_str()).collect();
    assert_eq!(texts, vec!["B", "a", "ab", "b"]);
    assert_eq!(sorted[0].address, [2; 20]);
}

#[test]
fn mnemonics_have_twelve_words() {
    let phrase = generate_mnemonic();
    assert_eq!(phrase.split(' ').count(), 12);
    assert!(phrase.split(' ').all(|word| !word.is_empty()));
    assert!(phrase.chars().all(|c| c == ' ' || c.is_ascii_lowercase()));
    assert!(bip39::Mnemonic::validate(&phrase, bip39::Language::English).is_ok());
    assert_ne!(generate_mnemonic(), phrase);
}
