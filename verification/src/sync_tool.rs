//! The decisions of the tool that keeps the event caches of the pools up to
//! date: which environment variable holds a chain's RPC URL, the names of a
//! pool's cache files, where a sync resumes, and how new records are laid out.
//! Reading and writing the files is the caller's.

use crate::decimal::{decimal_digits, push_decimal};
use crate::pool_registry::Pool;
use vstd::prelude::*;
use vstd::string::StringExecFns;

verus! {

/// The environment variable that holds the RPC URL of the chain `chain_id`,
/// for the chains the tool knows.
pub open spec fn rpc_env_var_spec(chain_id: u64) -> Option<Seq<char>> {
    if chain_id == 1 {
        Some("RPC_URL_MAINNET"@)
    } else if chain_id == 11155111 {
        Some("RPC_URL_SEPOLIA"@)
    } else if chain_id == 10 {
        Some("RPC_URL_OPTIMISM"@)
    } else {
        None
    }
}

/// The environment variable that holds the RPC URL of the chain `chain_id`;
/// `None` for a chain the tool does not know, whose pools are skipped.
pub fn rpc_env_var(chain_id: u64) -> (r: Option<&'static str>)
    ensures
        r matches Some(v) ==> rpc_env_var_spec(chain_id) == Some(v@),
        r is None <==> rpc_env_var_spec(chain_id) is None,
{
    if chain_id == 1 {
        Some("RPC_URL_MAINNET")
    } else if chain_id == 11155111 {
        Some("RPC_URL_SEPOLIA")
    } else if chain_id == 10 {
        Some("RPC_URL_OPTIMISM")
    } else {
        None
    }
}

/// The prefix of a pool's cache files: `<chain id>_<symbol>_<amount>`.
pub open spec fn file_prefix_spec(pool: Pool) -> Seq<char> {
    decimal_digits(pool.chain_id as nat) + "_"@ + pool.asset.spec_symbol() + "_"@ + pool.spec_amount()
}

/// The prefix of a pool's cache files: `<chain id>_<symbol>_<amount>`.
pub fn file_prefix(pool: &Pool) -> (r: String)
    requires
        pool.asset.spec_decimals() <= 38,
    ensures
        r@ == file_prefix_spec(*pool),
{
    let mut s = String::new();
    push_decimal(&mut s, pool.chain_id as u128);
    s.append("_");
    let symbol = pool.symbol();
    s.append(symbol.as_str());
    s.append("_");
    let amount = pool.amount();
    s.append(amount.as_str());
    s
}

/// The name of the deposits cache of the pool whose prefix is `prefix`.
pub fn deposits_file_name(prefix: &str) -> (r: String)
    ensures
        r@ == prefix@ + "_deposits.ndjson"@,
{
    String::from_str(prefix).concat("_deposits.ndjson")
}

/// The name of the nullifiers cache of the pool whose prefix is `prefix`.
pub fn nullifiers_file_name(prefix: &str) -> (r: String)
    ensures
        r@ == prefix@ + "_nullifiers.ndjson"@,
{
    String::from_str(prefix).concat("_nullifiers.ndjson")
}

/// The lines of `content` as `str::lines` splits them: at each `\n`, with
/// one `\r` dropped before it; the text after the last `\n` is a line only
/// when it is not empty.
pub open spec fn text_lines(content: Seq<u8>) -> Seq<Seq<u8>>
    decreases content.len(),
{
    if content.len() == 0 {
        Seq::empty()
    } else {
        let first_break = first_newline(content);
        proof {
            lemma_first_newline(content);
        }
        if first_break == content.len() {
            seq![content]
        } else {
            let raw = content.subrange(0, first_break as int);
            let line = if raw.len() > 0 && raw.last() == 13 {
                raw.drop_last()
            } else {
                raw
            };
            seq![line] + text_lines(content.subrange(first_break + 1 as int, content.len() as int))
        }
    }
}

/// The position of the first `\n` of `content`, or its length if it has
/// none.
pub open spec fn first_newline(content: Seq<u8>) -> nat
    decreases content.len(),
{
    if content.len() == 0 {
        0
    } else if content[0] == 10 {
        0
    } else {
        1 + first_newline(content.drop_first())
    }
}

/// The last of `lines` that is not empty.
pub open spec fn last_nonempty(lines: Seq<Seq<u8>>) -> Option<Seq<u8>>
    decreases lines.len(),
{
    if lines.len() == 0 {
        None
    } else if lines.last().len() > 0 {
        Some(lines.last())
    } else {
        last_nonempty(lines.drop_last())
    }
}

/// Where the first `\n` of `content` is: no `\n` comes before it.
pub proof fn lemma_first_newline(content: Seq<u8>)
    ensures
        first_newline(content) <= content.len(),
        first_newline(content) < content.len() ==> content[first_newline(content) as int] == 10,
        forall|k: int| 0 <= k < first_newline(content) ==> content[k] != 10,
    decreases content.len(),
{
    if content.len() > 0 && content[0] != 10 {
        lemma_first_newline(content.drop_first());
        assert forall|k: int| 0 <= k < first_newline(content) implies content[k] != 10 by {
            if k > 0 {
                assert(content[k] == content.drop_first()[k - 1]);
            }
        }
    }
}

/// The line of `content` that starts at `start`: up to the next `\n` (or the
/// end), without a `\r` just before that `\n`; and where the next line starts.
fn line_at(content: &[u8], start: usize) -> (r: (usize, usize, usize))
    requires
        start < content@.len(),
    ensures
        ({
            let rest = content@.subrange(start as int, content@.len() as int);
            let brk = first_newline(rest);
            &&& r.0 == start
            &&& r.1 == start + brk
            &&& r.1 <= content@.len()
            &&& brk < rest.len() ==> r.2 == r.1 + 1
            &&& brk == rest.len() ==> r.2 == content@.len()
        }),
{
    let n = content.len();
    let mut i: usize = start;
    let ghost rest = content@.subrange(start as int, n as int);
    proof {
        lemma_first_newline(rest);
    }
    while i < n && content[i] != 10u8
        invariant
            start <= i <= n == content@.len(),
            rest == content@.subrange(start as int, n as int),
            forall|k: int| start <= k < i ==> content@[k] != 10,
            i - start <= first_newline(rest),
        decreases n - i,
    {
        proof {
            lemma_first_newline(rest);
            assert(rest[i - start] == content@[i as int]);
        }
        i = i + 1;
    }
    proof {
        if i < n {
            assert(rest[i - start] == 10);
            if (i - start) < first_newline(rest) {
                assert(rest[i - start] != 10);
            }
        } else {
            assert(rest.len() == i - start);
        }
    }
    let next = if i < n {
        i + 1
    } else {
        n
    };
    (start, i, next)
}

/// The last line of `content` that is not empty, where the lines are those
/// of `str::lines`; the tool reads the block number of the last record of a
/// cache file from it.
pub fn last_nonempty_line(content: &[u8]) -> (r: Option<Vec<u8>>)
    ensures
        r matches Some(v) ==> last_nonempty(text_lines(content@)) == Some(v@),
        r is None <==> last_nonempty(text_lines(content@)) is None,
{
    let n = content.len();
    let mut start: usize = 0;
    let mut found: Option<(usize, usize)> = None;
    let ghost mut seen: Seq<Seq<u8>> = Seq::empty();
    assert(content@.subrange(0, n as int) =~= content@);
    while start < n
        invariant
            start <= n == content@.len(),
            seen + text_lines(content@.subrange(start as int, n as int)) == text_lines(content@),
            found matches Some((a, b)) ==> a <= b <= n && last_nonempty(seen) == Some(
                content@.subrange(a as int, b as int),
            ),
            found is None ==> last_nonempty(seen) is None,
        decreases n - start,
    {
        let ghost rest = content@.subrange(start as int, n as int);
        let (a, b, next) = line_at(content, start);
        proof {
            lemma_first_newline(rest);
        }
        let mut end = b;
        if b < n && b > a && content[b - 1] == 13u8 {
            end = b - 1;
        }
        let ghost line = content@.subrange(a as int, end as int);
        proof {
            let brk = first_newline(rest);
            let raw = rest.subrange(0, brk as int);
            assert(raw =~= content@.subrange(start as int, b as int));
            if brk == rest.len() {
                assert(line =~= rest);
                assert(text_lines(rest) == seq![rest]);
                assert(content@.subrange(next as int, n as int) =~= Seq::<u8>::empty());
                assert(text_lines(content@.subrange(next as int, n as int)) =~= Seq::<Seq<u8>>::empty());
            } else {
                assert(rest.subrange(brk + 1 as int, rest.len() as int) =~= content@.subrange(
                    next as int,
                    n as int,
                ));
                if raw.len() > 0 && raw.last() == 13 {
                    assert(raw.drop_last() =~= line);
                } else {
                    assert(raw =~= line);
                }
            }
            assert(text_lines(rest) =~= seq![line] + text_lines(content@.subrange(next as int, n as int)));
            assert(seen.push(line) + text_lines(content@.subrange(next as int, n as int)) =~= seen
                + text_lines(rest));
            assert(seen.push(line).drop_last() =~= seen);
            seen = seen.push(line);
        }
        if end > a {
            found = Some((a, end));
        }
        start = next;
    }
    proof {
        assert(content@.subrange(n as int, n as int) =~= Seq::<u8>::empty());
        assert(seen =~= text_lines(content@));
    }
    match found {
        None => None,
        Some((a, b)) => {
            let mut out: Vec<u8> = Vec::new();
            let mut i: usize = a;
            while i < b
                invariant
                    a <= i <= b <= n == content@.len(),
                    out@ == content@.subrange(a as int, i as int),
                decreases b - i,
            {
                out.push(content[i]);
                i = i + 1;
                assert(out@ =~= content@.subrange(a as int, i as int));
            }
            Some(out)
        },
    }
}

/// The block a pool's sync starts from: the block after the last one in
/// either cache, or 0 when both are empty, and never before the pool's
/// deployment.
pub open spec fn sync_start_spec(
    last_deposit: Option<u64>,
    last_nullifier: Option<u64>,
    deployed_block: u64,
) -> int {
    let resume: int = match (last_deposit, last_nullifier) {
        (Some(a), Some(b)) => if a >= b {
            a + 1
        } else {
            b + 1
        },
        (Some(a), None) => a + 1,
        (None, Some(b)) => b + 1,
        (None, None) => 0,
    };
    if resume >= deployed_block {
        resume
    } else {
        deployed_block as int
    }
}

/// A sync resumes right after the last recorded block: after every block
/// that either cache records, never before the pool's deployment, and at
/// the deployment block or the block right after a recorded one, so that no
/// block between the last recorded one and the start is skipped. With both
/// caches empty it starts at the deployment block.
pub proof fn lemma_sync_start(last_deposit: Option<u64>, last_nullifier: Option<u64>, deployed_block: u64)
    ensures
        ({
            let r = sync_start_spec(last_deposit, last_nullifier, deployed_block);
            &&& last_deposit matches Some(a) ==> r > a
            &&& last_nullifier matches Some(b) ==> r > b
            &&& r >= deployed_block
            &&& r == deployed_block || (last_deposit matches Some(a) && r == a + 1) || (
            last_nullifier matches Some(b) && r == b + 1)
            &&& last_deposit is None && last_nullifier is None ==> r == deployed_block
        }),
{
}

/// The block a pool's sync starts from: the block after the last one
/// recorded in either cache, or 0 when both are empty, and never before the
/// pool's deployment. A cache cannot record the last block of all.
pub fn sync_start_block(last_deposit: Option<u64>, last_nullifier: Option<u64>, deployed_block: u64) -> (r: u64)
    requires
        last_deposit matches Some(a) ==> a < u64::MAX,
        last_nullifier matches Some(b) ==> b < u64::MAX,
    ensures
        r == sync_start_spec(last_deposit, last_nullifier, deployed_block),
        last_deposit matches Some(a) ==> r > a,
        last_nullifier matches Some(b) ==> r > b,
        r >= deployed_block,
        r == deployed_block || (last_deposit matches Some(a) && r == a + 1) || (last_nullifier matches Some(
            b,
        ) && r == b + 1),
{
    proof {
        lemma_sync_start(last_deposit, last_nullifier, deployed_block);
    }
    let resume: u64 = match (last_deposit, last_nullifier) {
        (Some(a), Some(b)) => if a >= b {
            a + 1
        } else {
            b + 1
        },
        (Some(a), None) => a + 1,
        (None, Some(b)) => b + 1,
        (None, None) => 0,
    };
    if resume >= deployed_block {
        resume
    } else {
        deployed_block
    }
}

/// The records of `lines`, one per line, each followed by `\n`.
pub open spec fn ndjson_spec(lines: Seq<Seq<char>>) -> Seq<char>
    decreases lines.len(),
{
    if lines.len() == 0 {
        Seq::empty()
    } else {
        ndjson_spec(lines.drop_last()) + lines.last() + "\n"@
    }
}

/// The records of `lines` as newline-delimited text: each followed by `\n`.
pub fn ndjson(lines: &Vec<String>) -> (r: String)
    ensures
        r@ == ndjson_spec(lines@.map_values(|l: String| l@)),
{
    let mut out = String::new();
    let n = lines.len();
    let mut i: usize = 0;
    while i < n
        invariant
            i <= n == lines@.len(),
            out@ == ndjson_spec(lines@.subrange(0, i as int).map_values(|l: String| l@)),
        decreases n - i,
    {
        proof {
            let next = lines@.subrange(0, i + 1).map_values(|l: String| l@);
            assert(next.drop_last() =~= lines@.subrange(0, i as int).map_values(|l: String| l@));
            assert(next.last() == lines@[i as int]@);
        }
        out.append(lines[i].as_str());
        out.append("\n");
        i = i + 1;
    }
    assert(lines@.subrange(0, n as int) =~= lines@);
    out
}

} // verus!
