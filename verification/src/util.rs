//! Small helpers shared by the RPC surface: clock access, unit conversion,
//! block-identifier translation, and the error shapes the transport reports.
use vstd::prelude::*;

use crate::blockchain::BlockId;

verus! {

/// How an RPC caller names a block; `Pending` resolves to the latest block,
/// since the chain holds no pending transactions.
pub enum BlockNumber {
    Num(u64),
    Earliest,
    Latest,
    Pending,
}

/// Relies on std::time::SystemTime::now: seconds since the Unix epoch, or
/// zero for a clock before it. Nothing can be promised of a clock reading.
#[verifier::external_body]
pub fn get_timestamp() -> u64 {
    std::time::SystemTime::now()
        .duration_since(std::time::UNIX_EPOCH)
        .map(|d| d.as_secs())
        .unwrap_or(0)
}

/// Converts a Gwei amount to wei.
pub fn gwei_to_wei(gwei: u64) -> (r: u128)
    ensures
        r == gwei * 1_000_000_000,
{
    (gwei as u128) * 1_000_000_000
}

/// Convert an RPC block number to a block id.
pub fn block_number_to_id(number: BlockNumber) -> (r: BlockId)
    ensures
        match number {
            BlockNumber::Num(n) => r matches BlockId::Number(m) && m == n,
            BlockNumber::Earliest => r is Earliest,
            BlockNumber::Latest => r is Latest,
            BlockNumber::Pending => r is Latest,
        },
{
    match number {
        BlockNumber::Num(num) => BlockId::Number(num),
        BlockNumber::Earliest => BlockId::Earliest,
        BlockNumber::Latest => BlockId::Latest,
        BlockNumber::Pending => BlockId::Latest,
    }
}

/// The error shape the RPC transport reports to callers.
pub struct RpcError {
    pub code: i64,
    pub message: String,
    pub data: Option<String>,
}

/// An internal JSON-RPC error carrying a message, code -32603.
pub fn jsonrpc_error(message: String) -> (r: RpcError)
    ensures
        r.code == -32603,
        r.message == message,
        r.data is None,
{
    RpcError { code: -32603, message, data: None }
}

/// A transaction execution error, code -32015; the cause travels in both
/// the message and the data field (transports may prefix a cause label).
pub fn execution_error(data: String) -> (r: RpcError)
    ensures
        r.code == -32015,
        r.message@ == data@,
        r.data matches Some(d) && d == data,
{
    let copy = data.clone();
    RpcError { code: -32015, message: copy, data: Some(data) }
}

} // verus!
