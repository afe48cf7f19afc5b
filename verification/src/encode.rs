//! Wire-format encoders: decimal rendering of integers and the JSON
//! shapes the relay sends (the results reply, the ping echo, and the
//! HTTP error body).
//!
//! The outbound shapes are fixed: a literal skeleton around decimal
//! integers, so they are built and specified directly.

use vstd::prelude::*;
use vstd::string::StringExecFns;

verus! {

/// The character for one decimal digit.
pub open spec fn digit_char(d: nat) -> char {
    if d == 0 {
        '0'
    } else if d == 1 {
        '1'
    } else if d == 2 {
        '2'
    } else if d == 3 {
        '3'
    } else if d == 4 {
        '4'
    } else if d == 5 {
        '5'
    } else if d == 6 {
        '6'
    } else if d == 7 {
        '7'
    } else if d == 8 {
        '8'
    } else {
        '9'
    }
}

/// Decimal digits of `n`, most significant first.
pub open spec fn dec_digits(n: nat) -> Seq<char>
    decreases n,
{
    if n < 10 {
        seq![digit_char(n)]
    } else {
        dec_digits(n / 10).push(digit_char(n % 10))
    }
}

/// Decimal rendering of a signed value, with a leading minus sign when
/// negative.
pub open spec fn dec_i64(n: int) -> Seq<char> {
    if n >= 0 {
        dec_digits(n as nat)
    } else {
        seq!['-'] + dec_digits((-n) as nat)
    }
}

/// Comma-separated decimal renderings, in sequence order.
pub open spec fn int_list(s: Seq<i64>) -> Seq<char>
    decreases s.len(),
{
    if s.len() == 0 {
        Seq::<char>::empty()
    } else if s.len() == 1 {
        dec_i64(s[0] as int)
    } else {
        int_list(s.drop_last()) + seq![','] + dec_i64(s.last() as int)
    }
}

/// The reply sent for a "done" message: the full sample sequence and its
/// count.
pub open spec fn results_json(samples: Seq<i64>) -> Seq<char> {
    "{\"type\":\"results\",\"list\":["@ + int_list(samples) + "],\"receivedCount\":"@
        + dec_digits(samples.len()) + "}"@
}

/// The envelope echoed back on the datagram channel, carrying the
/// peer-supplied index and timestamp through unchanged.
pub open spec fn ping_json(i: int, t: nat) -> Seq<char> {
    "{\"i\":"@ + dec_i64(i) + ",\"time\":"@ + dec_digits(t) + "}"@
}

/// The JSON body attached to HTTP-level error replies.
pub open spec fn detail_json(msg: Seq<char>) -> Seq<char> {
    "{\"detail\":\""@ + msg + "\"}"@
}

/// A one-character string for the decimal digit `d`.
fn digit_str(d: u64) -> (s: &'static str)
    requires
        d < 10,
    ensures
        s@ =~= seq![digit_char(d as nat)],
{
    let s: &'static str = match d {
        0 => "0",
        1 => "1",
        2 => "2",
        3 => "3",
        4 => "4",
        5 => "5",
        6 => "6",
        7 => "7",
        8 => "8",
        _ => "9",
    };
    proof {
        reveal_strlit("0");
        reveal_strlit("1");
        reveal_strlit("2");
        reveal_strlit("3");
        reveal_strlit("4");
        reveal_strlit("5");
        reveal_strlit("6");
        reveal_strlit("7");
        reveal_strlit("8");
        reveal_strlit("9");
    }
    s
}

/// Decimal rendering of an unsigned value.
pub fn u64_to_string(n: u64) -> (s: String)
    ensures
        s@ == dec_digits(n as nat),
    decreases n,
{
    if n < 10 {
        let s = digit_str(n).to_owned();
        proof {
            assert(s@ =~= dec_digits(n as nat));
        }
        s
    } else {
        let mut s = u64_to_string(n / 10);
        s.append(digit_str(n % 10));
        proof {
            assert(dec_digits((n / 10) as nat) + seq![digit_char((n % 10) as nat)] =~= dec_digits(
                (n / 10) as nat,
            ).push(digit_char((n % 10) as nat)));
            assert(s@ =~= dec_digits(n as nat));
        }
        s
    }
}

/// Decimal rendering of a signed value.
pub fn i64_to_string(n: i64) -> (s: String)
    ensures
        s@ == dec_i64(n as int),
{
    if n >= 0 {
        u64_to_string(n as u64)
    } else {
        let mag: u64 = ((-(n + 1)) as u64) + 1;
        proof {
            assert(mag as int == -(n as int));
        }
        let mut s = "-".to_owned();
        s.append(u64_to_string(mag).as_str());
        proof {
            reveal_strlit("-");
            assert("-"@ =~= seq!['-']);
            assert(s@ =~= dec_i64(n as int));
        }
        s
    }
}

/// Decimal rendering of a count.
pub fn usize_to_string(n: usize) -> (s: String)
    ensures
        s@ == dec_digits(n as nat),
{
    u64_to_string(n as u64)
}

/// Builds the "done" reply for the given recorded samples.
pub fn encode_results(samples: &Vec<i64>) -> (r: String)
    ensures
        r@ == results_json(samples@),
{
    let mut s = "{\"type\":\"results\",\"list\":[".to_owned();
    let n = samples.len();
    let mut i: usize = 0;
    while i < n
        invariant
            n == samples@.len(),
            i <= n,
            s@ == "{\"type\":\"results\",\"list\":["@ + int_list(samples@.take(i as int)),
        decreases n - i,
    {
        if i > 0 {
            s.append(",");
            proof {
                reveal_strlit(",");
                assert(","@ =~= seq![',']);
            }
        }
        let d = i64_to_string(samples[i]);
        s.append(d.as_str());
        proof {
            let t = samples@;
            let pre = t.take(i as int);
            let cur = t.take(i as int + 1);
            assert(cur.drop_last() =~= pre);
            assert(cur.last() == t[i as int]);
            if i == 0 {
                assert(int_list(cur) == dec_i64(t[0] as int));
                assert(pre =~= Seq::<i64>::empty());
                assert(int_list(pre) == Seq::<char>::empty());
            } else {
                assert(int_list(cur) == int_list(pre) + seq![','] + dec_i64(t[i as int] as int));
            }
            assert(s@ =~= "{\"type\":\"results\",\"list\":["@ + int_list(cur));
        }
        i += 1;
    }
    proof {
        assert(samples@.take(n as int) =~= samples@);
    }
    s.append("],\"receivedCount\":");
    let c = usize_to_string(n);
    s.append(c.as_str());
    s.append("}");
    proof {
        assert(s@ =~= results_json(samples@));
    }
    s
}

/// Builds the datagram echo envelope for the given index and timestamp.
pub fn encode_ping(index: i64, time: u64) -> (r: String)
    ensures
        r@ == ping_json(index as int, time as nat),
{
    let mut s = "{\"i\":".to_owned();
    let d = i64_to_string(index);
    s.append(d.as_str());
    s.append(",\"time\":");
    let t = u64_to_string(time);
    s.append(t.as_str());
    s.append("}");
    proof {
        assert(s@ =~= ping_json(index as int, time as nat));
    }
    s
}

/// Builds the HTTP error body around the given detail message.
pub fn encode_detail(msg: &str) -> (r: String)
    ensures
        r@ == detail_json(msg@),
{
    let mut s = "{\"detail\":\"".to_owned();
    s.append(msg);
    s.append("\"}");
    proof {
        assert(s@ =~= detail_json(msg@));
    }
    s
}

} // verus!
