//! What is told of blocks, transactions and outputs.

use vstd::prelude::*;

use crate::hash::{BlockHash, Hash256, Txid};
use crate::rpc::hex::{hex_encode, hex_text};
use crate::transaction::outpoint::OutPoint;
use crate::types::{Body, Header};

verus! {

/// A transaction with its canonical encoding.
#[derive(Debug)]
pub struct EncodedTransaction {
    pub txid: Txid,
    pub size: u64,
    pub encoding: Vec<u8>,
}

/// A transaction as it is told of: its identifier, its size, and its canonical
/// encoding in hexadecimal.
#[derive(Debug)]
pub struct IndexTx {
    pub txid: Txid,
    pub size: u64,
    pub raw: String,
}

pub struct IndexTxView {
    pub txid: Txid,
    pub size: u64,
    pub raw: Seq<char>,
}

impl IndexTx {
    pub open spec fn view(self) -> IndexTxView {
        IndexTxView { txid: self.txid, size: self.size, raw: self.raw@ }
    }
}

/// What is told of a transaction.
pub open spec fn index_tx(tx: EncodedTransaction) -> IndexTxView {
    IndexTxView { txid: tx.txid, size: tx.size, raw: hex_text(tx.encoding@) }
}

/// The transactions of a block or of the mempool, in order.
pub fn index_transactions(txs: &Vec<EncodedTransaction>) -> (index: Vec<IndexTx>)
    ensures
        index@.len() == txs@.len(),
        forall|i: int| 0 <= i < txs@.len() ==> (#[trigger] index@[i])@ == index_tx(txs@[i]),
{
    let mut index: Vec<IndexTx> = Vec::new();
    let mut i: usize = 0;
    while i < txs.len()
        invariant
            i <= txs@.len(),
            index@.len() == i,
            forall|j: int| 0 <= j < i ==> (#[trigger] index@[j])@ == index_tx(txs@[j]),
        decreases txs@.len() - i,
    {
        let tx = &txs[i];
        let raw = hex_encode(tx.encoding.as_slice());
        index.push(IndexTx { txid: tx.txid, size: tx.size, raw });
        i += 1;
    }
    index
}

/// Something together with the outpoint that it belongs to.
#[derive(Debug)]
pub struct PointedOutput<T> {
    pub outpoint: OutPoint,
    pub output: T,
}

/// Each of some outputs with its outpoint, in order.
pub fn pointed_outputs<T>(outputs: Vec<(OutPoint, T)>) -> (pointed: Vec<PointedOutput<T>>)
    ensures
        pointed@ == outputs@.map_values(
            |entry: (OutPoint, T)| PointedOutput { outpoint: entry.0, output: entry.1 },
        ),
{
    let ghost all = outputs@;
    let ghost to = |entry: (OutPoint, T)| PointedOutput { outpoint: entry.0, output: entry.1 };
    let mut left = outputs;
    let mut reversed: Vec<PointedOutput<T>> = Vec::new();
    while left.len() > 0
        invariant
            left@ == all.take(left@.len() as int),
            left@.len() <= all.len(),
            to == (|entry: (OutPoint, T)| PointedOutput { outpoint: entry.0, output: entry.1 }),
            reversed@ == all.skip(left@.len() as int).map_values(to).reverse(),
        decreases left@.len(),
    {
        let ghost n = left@.len() as int;
        if let Some((outpoint, output)) = left.pop() {
            proof {
                assert(all.take(n).drop_last() =~= all.take(n - 1));
            }
            reversed.push(PointedOutput { outpoint, output });
            assert(reversed@ =~= all.skip(n - 1).map_values(to).reverse());
        }
    }
    let mut pointed: Vec<PointedOutput<T>> = Vec::new();
    while reversed.len() > 0
        invariant
            reversed@.len() <= all.len(),
            pointed@ == all.take(all.len() - reversed@.len()).map_values(to),
            reversed@ == all.skip(all.len() - reversed@.len()).map_values(to).reverse(),
        decreases reversed@.len(),
    {
        let ghost n = all.len() - reversed@.len();
        if let Some(item) = reversed.pop() {
            proof {
                let before = all.skip(n).map_values(to).reverse();
                assert(item == before[before.len() - 1]);
                assert(item == to(all[n]));
                assert(reversed@ =~= all.skip(n + 1).map_values(to).reverse());
            }
            pointed.push(item);
            assert(pointed@ =~= all.take(n + 1).map_values(to));
        }
    }
    assert(all.take(all.len() as int) =~= all);
    pointed
}

/// Where an output was spent.
#[derive(Clone, Copy, Debug, PartialEq, Eq, Structural)]
pub enum InPoint {
    /// By an input of a transaction.
    Regular { txid: Txid, vin: u32 },
    /// By a withdrawal bundle.
    Withdrawal { m6id: Hash256 },
}

/// An output that was spent.
#[derive(Debug)]
pub struct SpentOutput<T> {
    pub output: T,
    pub inpoint: InPoint,
}

/// A spent output, and the outpoint that created it.
pub type PointedSpentOutput<T> = PointedOutput<SpentOutput<T>>;

/// The transactions of a block, with the deposits and the withdrawal bundle
/// spends that it applied.
#[derive(Debug)]
pub struct BlockIndex<T> {
    pub txs: Vec<IndexTx>,
    pub deposits: Vec<PointedOutput<T>>,
    /// The outputs that were spent, with the identifiers of their bundles.
    pub bundle_spends: Vec<PointedOutput<Hash256>>,
}

pub fn get_block_index<T>(
    txs: &Vec<EncodedTransaction>,
    deposits: Vec<(OutPoint, T)>,
    bundle_spends: Vec<(OutPoint, Hash256)>,
) -> (index: BlockIndex<T>)
    ensures
        index.txs@.len() == txs@.len(),
        forall|i: int| 0 <= i < txs@.len() ==> (#[trigger] index.txs@[i])@ == index_tx(txs@[i]),
        index.deposits@ == deposits@.map_values(
            |entry: (OutPoint, T)| PointedOutput { outpoint: entry.0, output: entry.1 },
        ),
        index.bundle_spends@ == bundle_spends@.map_values(
            |entry: (OutPoint, Hash256)| PointedOutput { outpoint: entry.0, output: entry.1 },
        ),
{
    BlockIndex {
        txs: index_transactions(txs),
        deposits: pointed_outputs(deposits),
        bundle_spends: pointed_outputs(bundle_spends),
    }
}

/// Where a transaction stands in the chain.
#[derive(Clone, Copy, Debug, PartialEq, Eq, Structural)]
pub struct TxIn {
    pub block_hash: BlockHash,
    pub idx: u32,
}

/// What is told of a transaction in the chain or in the mempool.
#[derive(Clone, Copy, Debug, PartialEq, Eq, Structural)]
pub struct TxInfo {
    /// How many blocks were built upon the block of the transaction.
    pub confirmations: Option<u32>,
    pub fee_sats: u64,
    pub txin: Option<TxIn>,
}

/// A transaction that was found, with its fee or the message of the failure to
/// compute it.
#[derive(Debug)]
pub struct FoundTransaction {
    pub txin: Option<TxIn>,
    pub fee_sats: Result<u64, String>,
}

/// What is told of a transaction. `tip_height` and `height` are those of the
/// tip and of the block of the transaction, and only matter if it is in one.
pub fn get_transaction_info(
    found: Option<FoundTransaction>,
    tip_height: u32,
    height: u32,
) -> (info: Result<Option<TxInfo>, String>)
    requires
        found matches Some(found) && found.txin is Some ==> height <= tip_height,
    ensures
        match found {
            None => info == Ok::<Option<TxInfo>, String>(None),
            Some(found) => match found.fee_sats {
                Err(message) => info == Err::<Option<TxInfo>, String>(message),
                Ok(fee_sats) => info == Ok::<Option<TxInfo>, String>(
                    Some(
                        TxInfo {
                            confirmations: if found.txin is Some {
                                Some((tip_height - height) as u32)
                            } else {
                                None
                            },
                            fee_sats,
                            txin: found.txin,
                        },
                    ),
                ),
            },
        },
{
    let found = match found {
        None => {
            return Ok(None);
        },
        Some(found) => found,
    };
    let confirmations = if found.txin.is_some() {
        Some(tip_height - height)
    } else {
        None
    };
    match found.fee_sats {
        Err(message) => Err(message),
        Ok(fee_sats) => Ok(Some(TxInfo { confirmations, fee_sats, txin: found.txin })),
    }
}

/// A block that was assembled, and the fees that its transactions pay.
#[derive(Debug)]
pub struct BlockTemplate {
    pub header: Header,
    pub body: Body,
    pub height: u32,
    pub fees_sats: u64,
}

/// A block with its height.
#[derive(Debug)]
pub struct BlockAtHeight {
    pub header: Header,
    pub body: Body,
    pub height: u32,
}

#[derive(Debug)]
pub struct GetBlockTemplateResponse {
    /// The block hash to commit to in a request to the mainchain.
    pub critical_hash: BlockHash,
    /// The block to connect once the mainchain has committed to it.
    pub block: BlockAtHeight,
    /// The fees that the transactions of the block pay, in sats.
    pub fees_sats: u64,
}

/// What is told of a block that was assembled.
pub fn get_block_template(template: BlockTemplate) -> (response: GetBlockTemplateResponse)
    ensures
        response.critical_hash == template.header.hash,
        response.block == (BlockAtHeight {
            header: template.header,
            body: template.body,
            height: template.height,
        }),
        response.fees_sats == template.fees_sats,
{
    GetBlockTemplateResponse {
        critical_hash: template.header.hash,
        block: BlockAtHeight {
            header: template.header,
            body: template.body,
            height: template.height,
        },
        fees_sats: template.fees_sats,
    }
}

/// The number of blocks of a chain whose tip has the given height.
pub fn getblockcount(tip_height: Option<u32>) -> (count: u32)
    requires
        tip_height matches Some(height) ==> height < u32::MAX,
    ensures
        count == match tip_height {
            Some(height) => height + 1,
            None => 0int,
        },
{
    match tip_height {
        Some(height) => height + 1,
        None => 0,
    }
}

/// A transaction is told of by its identifier and its size, and by two hexadecimal
/// digits for each byte of its encoding, the higher one first.
pub proof fn law_index_holds_the_encoding(tx: EncodedTransaction)
    ensures
        ({
            let told = index_tx(tx);
            &&& told.txid == tx.txid
            &&& told.size == tx.size
            &&& told.raw.len() == 2 * tx.encoding@.len()
            &&& forall|i: int|
                0 <= i < tx.encoding@.len() ==> {
                    &&& #[trigger] told.raw[2 * i] == hex_digit(tx.encoding@[i] as int / 16)
                    &&& told.raw[2 * i + 1] == hex_digit(tx.encoding@[i] as int % 16)
                }
        }),
{
    let told = index_tx(tx);
    assert forall|i: int| 0 <= i < tx.encoding@.len() implies {
        &&& #[trigger] told.raw[2 * i] == hex_digit(tx.encoding@[i] as int / 16)
        &&& told.raw[2 * i + 1] == hex_digit(tx.encoding@[i] as int % 16)
    } by {
        let byte = tx.encoding@[i] as int;
        assert((2 * i) / 2 == i && (2 * i) % 2 == 0);
        assert((2 * i + 1) / 2 == i && (2 * i + 1) % 2 == 1);
        assert(0 <= byte / 16 < 16 && 0 <= byte % 16 < 16);
    }
}

/// The hexadecimal digit of a number below 16.
pub open spec fn hex_digit(n: int) -> char {
    seq![
        '0', '1', '2', '3', '4', '5', '6', '7', '8', '9', 'a', 'b', 'c', 'd', 'e', 'f',
    ][n]
}

} // verus!
