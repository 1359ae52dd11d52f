//! The line protocol of the local query socket: `GET <topic>\n` requests and
//! one-line answers.
use vstd::prelude::*;
use crate::topicdb::DBResult;

verus! {

/// The longest request line accepted, newline included.
pub const MAX_LINE: usize = 65540;

/// Why a request line was refused.
#[derive(PartialEq, Eq, Structural, Debug, Clone, Copy)]
pub enum ProtocolError {
    /// The line is not `GET `, a topic and a newline, within the length limit.
    UnknownCommand,
}

/// The command prefix of a request.
pub open spec fn get_prefix() -> Seq<u8> {
    seq![71u8, 69u8, 84u8, 32u8]
}

/// A well-formed request: `GET `, the topic bytes, and a final newline, at
/// most `MAX_LINE` bytes in all.
pub open spec fn is_request(line: Seq<u8>) -> bool {
    &&& 5 <= line.len() <= MAX_LINE
    &&& line.subrange(0, 4) == get_prefix()
    &&& line.last() == 10u8
}

/// Reads the topic out of a request line.
pub fn parse_request(line: &[u8]) -> (r: Result<Vec<u8>, ProtocolError>)
    ensures
        match r {
            Ok(topic) => is_request(line@) && topic@ == line@.subrange(4, line@.len() - 1),
            Err(_) => !is_request(line@),
        },
{
    let n = line.len();
    if n < 5 || n > MAX_LINE || line[0] != 71u8 || line[1] != 69u8 || line[2] != 84u8 || line[3] != 32u8
        || line[n - 1] != 10u8 {
        proof {
            if is_request(line@) {
                assert(line@.subrange(0, 4)[0] == line@[0]);
                assert(line@.subrange(0, 4)[1] == line@[1]);
                assert(line@.subrange(0, 4)[2] == line@[2]);
                assert(line@.subrange(0, 4)[3] == line@[3]);
            }
        }
        return Err(ProtocolError::UnknownCommand);
    }
    proof {
        assert(line@.subrange(0, 4) =~= get_prefix());
    }
    let mut topic: Vec<u8> = Vec::new();
    let mut i: usize = 4;
    while i < n - 1
        invariant
            n == line@.len(),
            5 <= n,
            4 <= i <= n - 1,
            topic@ == line@.subrange(4, i as int),
        decreases n - 1 - i,
    {
        topic.push(line[i]);
        i = i + 1;
        proof {
            assert(line@.subrange(4, i as int) =~= line@.subrange(4, i - 1) + seq![line@[i - 1]]);
        }
    }
    Ok(topic)
}

/// The decimal digits of `n`, most significant first.
pub open spec fn decimal(n: nat) -> Seq<u8>
    decreases n,
{
    if n < 10 {
        seq![(48 + n) as u8]
    } else {
        decimal(n / 10).push((48 + n % 10) as u8)
    }
}

/// The line that answers a query: `None`, the label in decimal, or `Denied`.
pub open spec fn reply_for(r: DBResult) -> Seq<u8> {
    match r {
        DBResult::NoMatch => seq![78u8, 111u8, 110u8, 101u8, 10u8],
        DBResult::Found(l) => decimal(l as nat).push(10u8),
        DBResult::Denied(_) => seq![68u8, 101u8, 110u8, 105u8, 101u8, 100u8, 10u8],
    }
}

fn push_decimal(buf: &mut Vec<u8>, n: u16)
    ensures
        final(buf)@ == old(buf)@ + decimal(n as nat),
    decreases n,
{
    if n >= 10 {
        push_decimal(buf, n / 10);
    }
    buf.push(48u8 + (n % 10) as u8);
    proof {
        assert(buf@ =~= old(buf)@ + decimal(n as nat));
    }
}

/// The answer line for a query result.
pub fn reply_line(r: &DBResult) -> (out: Vec<u8>)
    ensures
        out@ == reply_for(*r),
{
    let mut out: Vec<u8> = Vec::new();
    match r {
        DBResult::NoMatch => {
            out.push(78u8);
            out.push(111u8);
            out.push(110u8);
            out.push(101u8);
        },
        DBResult::Found(l) => {
            push_decimal(&mut out, *l);
        },
        DBResult::Denied(_) => {
            out.push(68u8);
            out.push(101u8);
            out.push(110u8);
            out.push(105u8);
            out.push(101u8);
            out.push(100u8);
        },
    }
    out.push(10u8);
    proof {
        assert(out@ =~= reply_for(*r));
    }
    out
}

} // verus!
