use sei_nova::scan::{block_page_hashes, block_tx_hashes, BlockPage, BlockTx, Config, DontHaveData};

fn s(x: &str) -> String {
    x.to_string()
}

const VOTE: &str = "/seiprotocol.seichain.oracle.MsgAggregateExchangeRateVote";

fn tx(hash: &str, success: bool, types: &[&str]) -> BlockTx {
    BlockTx { hash: s(hash), success, message_types: types.iter().map(|t| s(t)).collect() }
}

#[test]
fn followed_hashes_drop_their_prefix_and_are_upper_cased() {
    let items = vec![
        tx("0xabc123", true, &["/cosmwasm.wasm.v1.MsgExecuteContract"]),
        tx("0xdead", false, &["/cosmwasm.wasm.v1.MsgExecuteContract"]),
        tx("0xbeef", true, &[VOTE]),
        tx("0xf00d", true, &[VOTE, "/cosmos.bank.v1beta1.MsgSend"]),
    ];
    assert_eq!(block_tx_hashes(&items), Some(vec![s("ABC123"), s("F00D")]));
}

#[test]
fn block_page_answers() {
    let items = vec![tx("0x1a", true, &["/x"])];
    assert_eq!(block_page_hashes(&BlockPage::Items(Some(items))), Some(Ok(vec![s("1A")])));
    assert_eq!(block_page_hashes(&BlockPage::Items(Some(vec![]))), Some(Err(s("null"))));
    assert_eq!(block_page_hashes(&BlockPage::Items(None)), Some(Err(s("1"))));
    assert_eq!(block_page_hashes(&BlockPage::Code(500)), Some(Err(s("500"))));
    assert_eq!(block_page_hashes(&BlockPage::Code(404)), Some(Err(s("0"))));
    assert_eq!(block_page_hashes(&BlockPage::Other), Some(Err(s("0"))));
}

#[test]
fn all_votes_or_failures_give_no_hashes() {
    let items = vec![tx("0xaa", true, &[VOTE]), tx("0xbb", false, &["/x"])];
    assert_eq!(block_page_hashes(&BlockPage::Items(Some(items))), Some(Ok(vec![])));
}

#[test]
fn hash_too_short_to_cut_gives_none() {
    let items = vec![tx("0", true, &["/x"])];
    assert_eq!(block_tx_hashes(&items), None);
}

#[test]
fn config_records_the_finished_block() {
    let c = Config { start_block: 10, end_block: 20, sync_block: 12 }.with_sync_block(15);
    assert_eq!((c.start_block, c.end_block, c.sync_block), (10, 20, 15));
}

#[test]
fn wallet_without_data_has_no_result() {
    let d = DontHaveData::for_wallet(s("sei1w"));
    assert_eq!(d.wallet_address, "sei1w");
    assert!(d.result.is_none());
}
