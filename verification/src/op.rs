//! Wire op codes.

use vstd::prelude::*;

verus! {

pub const PING: u8 = 1;

pub const PUT: u8 = 2;

pub const GET: u8 = 3;

pub const EXISTS: u8 = 4;

pub const STATS: u8 = 5;

pub const CLEAR: u8 = 6;

pub const RESTORE: u8 = 7;

pub const CLOSE: u8 = 8;

pub const GET_MANY: u8 = 9;

pub const LIST: u8 = 10;

/// Block-shaped: count leading hashes present in the daemon's metadata index.
pub const LOOKUP_BLOCK_PREFIX: u8 = 11;

/// Block-shaped: batched GET for N content-addressed blocks.
pub const GET_KV_BLOCKS_BATCH: u8 = 12;

/// Block-shaped: batched PUT for N content-addressed blocks plus a
/// metadata-index update.
pub const PUT_KV_BLOCKS_BATCH: u8 = 13;

/// The name of an op code.
pub open spec fn op_name(code: u8) -> Seq<char> {
    if code == PING {
        "ping"@
    } else if code == PUT {
        "put"@
    } else if code == GET {
        "get"@
    } else if code == EXISTS {
        "exists"@
    } else if code == STATS {
        "stats"@
    } else if code == CLEAR {
        "clear"@
    } else if code == RESTORE {
        "restore"@
    } else if code == CLOSE {
        "close"@
    } else if code == GET_MANY {
        "get_many"@
    } else if code == LIST {
        "list"@
    } else if code == LOOKUP_BLOCK_PREFIX {
        "lookup_block_prefix"@
    } else if code == GET_KV_BLOCKS_BATCH {
        "get_kv_blocks_batch"@
    } else if code == PUT_KV_BLOCKS_BATCH {
        "put_kv_blocks_batch"@
    } else {
        "unknown"@
    }
}

/// The name of an op code, for logs.
pub fn name(code: u8) -> (text: &'static str)
    ensures
        text@ == op_name(code),
{
    match code {
        PING => "ping",
        PUT => "put",
        GET => "get",
        EXISTS => "exists",
        STATS => "stats",
        CLEAR => "clear",
        RESTORE => "restore",
        CLOSE => "close",
        GET_MANY => "get_many",
        LIST => "list",
        LOOKUP_BLOCK_PREFIX => "lookup_block_prefix",
        GET_KV_BLOCKS_BATCH => "get_kv_blocks_batch",
        PUT_KV_BLOCKS_BATCH => "put_kv_blocks_batch",
        _ => "unknown",
    }
}

} // verus!
