//! From the source address of a connection to the key under which its
//! location is cached.
//!
//! A connection's source address is text such as `203.0.113.7:4321`. The part
//! before the first colon is the peer's address. The cache key is that address
//! read as an IPv4 address; what is missing or cannot be read as one counts as
//! the loopback address, so that a connection is never refused over it.
use crate::locator::Address;
use vstd::prelude::*;

verus! {

/// The loopback address, 127.0.0.1.
pub const LOOPBACK: Address = 0x7f00_0001;

/// The text `127.0.0.1`.
pub open spec fn loopback_text() -> Seq<u8> {
    seq![49u8, 50u8, 55u8, 46u8, 48u8, 46u8, 48u8, 46u8, 49u8]
}

/// How many bytes of `s`, counted from `from`, come before the next colon or
/// the end of `s`.
pub open spec fn run_to_colon(s: Seq<u8>, from: int) -> int
    decreases s.len() - from,
{
    if 0 <= from < s.len() && s[from] != 58 {
        1 + run_to_colon(s, from + 1)
    } else {
        0
    }
}

/// The peer's address in the source address of a connection: what stands
/// before the first colon, or the loopback address if there is no source
/// address or it is empty.
pub open spec fn peer_of(remote: Option<Seq<u8>>) -> Seq<u8> {
    match remote {
        Some(text) => if text.len() == 0 {
            loopback_text()
        } else {
            text.take(run_to_colon(text, 0))
        },
        None => loopback_text(),
    }
}

/// The peer's address in the source address of a connection.
pub fn peer_address(remote: Option<&[u8]>) -> (peer: Vec<u8>)
    ensures
        peer@ == peer_of(
            match remote {
                Some(text) => Some(text@),
                None => None,
            },
        ),
{
    let mut peer: Vec<u8> = Vec::new();
    match remote {
        Some(text) => {
            if text.len() > 0 {
                let mut i: usize = 0;
                while i < text.len() && text[i] != 58
                    invariant
                        i <= text.len(),
                        peer@ == text@.take(i as int),
                        run_to_colon(text@, 0) == i + run_to_colon(text@, i as int),
                    decreases text.len() - i,
                {
                    peer.push(text[i]);
                    assert(peer@ =~= text@.take(i as int + 1));
                    i += 1;
                }
                return peer;
            }
        },
        None => {},
    }
    peer.push(49);
    peer.push(50);
    peer.push(55);
    peer.push(46);
    peer.push(48);
    peer.push(46);
    peer.push(48);
    peer.push(46);
    peer.push(49);
    assert(peer@ =~= loopback_text());
    peer
}

/// Whether `b` is an ASCII digit.
pub open spec fn is_digit(b: u8) -> bool {
    48 <= b <= 57
}

/// How many digits `s` holds in a row from `from` on.
pub open spec fn digit_run(s: Seq<u8>, from: int) -> int
    decreases s.len() - from,
{
    if 0 <= from < s.len() && is_digit(s[from]) {
        1 + digit_run(s, from + 1)
    } else {
        0
    }
}

/// The number that the digits `s` spell in decimal.
pub open spec fn decimal(s: Seq<u8>) -> int
    decreases s.len(),
{
    if s.len() == 0 {
        0
    } else {
        decimal(s.drop_last()) * 10 + (s.last() - 48)
    }
}

/// The octet that starts at `from` and where it ends: a run of one to three
/// digits that spell a number up to 255.
pub open spec fn octet_at(s: Seq<u8>, from: int) -> Option<(int, int)> {
    let n = digit_run(s, from);
    let value = decimal(s.subrange(from, from + n));
    if 1 <= n <= 3 && value <= 255 {
        Some((value, from + n))
    } else {
        None
    }
}

/// The octet that starts at `from`, which must be followed by a dot, and
/// where the text goes on after the dot.
pub open spec fn dotted_octet_at(s: Seq<u8>, from: int) -> Option<(int, int)> {
    match octet_at(s, from) {
        Some((value, end)) => if end < s.len() && s[end] == 46 {
            Some((value, end + 1))
        } else {
            None
        },
        None => None,
    }
}

/// The IPv4 address that `s` spells, if it spells one: four octets with a dot
/// between each two and nothing else.
pub open spec fn ipv4_of(s: Seq<u8>) -> Option<Address> {
    match dotted_octet_at(s, 0) {
        None => None,
        Some((a, i)) => match dotted_octet_at(s, i) {
            None => None,
            Some((b, j)) => match dotted_octet_at(s, j) {
                None => None,
                Some((c, k)) => match octet_at(s, k) {
                    None => None,
                    Some((d, end)) => if end == s.len() {
                        Some((((a * 256 + b) * 256 + c) * 256 + d) as u32)
                    } else {
                        None
                    },
                },
            },
        },
    }
}

/// The cache key of the peer with address `peer`.
pub open spec fn key_of(peer: Seq<u8>) -> Address {
    match ipv4_of(peer) {
        Some(address) => address,
        None => LOOPBACK,
    }
}

/// A run of digits has a length that is not negative.
proof fn lemma_digit_run_nonnegative(s: Seq<u8>, from: int)
    ensures
        digit_run(s, from) >= 0,
    decreases s.len() - from,
{
    if 0 <= from < s.len() && is_digit(s[from]) {
        lemma_digit_run_nonnegative(s, from + 1);
    }
}

/// Reads the octet that starts at `from`.
fn read_octet(s: &[u8], from: usize) -> (r: Option<(u32, usize)>)
    requires
        from <= s.len(),
    ensures
        match r {
            Some((value, end)) => octet_at(s@, from as int) == Some((value as int, end as int))
                && value <= 255 && from < end <= s.len(),
            None => octet_at(s@, from as int) is None,
        },
{
    let mut value: u32 = 0;
    let mut i: usize = from;
    assert(s@.subrange(from as int, from as int) =~= Seq::<u8>::empty());
    while i < s.len() && i - from < 3 && 48 <= s[i] && s[i] <= 57
        invariant
            from <= i <= s.len(),
            i - from <= 3,
            digit_run(s@, from as int) == (i - from) + digit_run(s@, i as int),
            value == decimal(s@.subrange(from as int, i as int)),
            i - from == 0 ==> value == 0,
            i - from == 1 ==> value <= 9,
            i - from == 2 ==> value <= 99,
            i - from == 3 ==> value <= 999,
        decreases s.len() - i,
    {
        assert(s@.subrange(from as int, i as int + 1).drop_last() =~= s@.subrange(
            from as int,
            i as int,
        ));
        value = value * 10 + (s[i] - 48) as u32;
        i += 1;
    }
    if i == from {
        return None;
    }
    if i < s.len() && 48 <= s[i] && s[i] <= 57 {
        // a fourth digit
        proof {
            lemma_digit_run_nonnegative(s@, i as int + 1);
        }
        return None;
    }
    assert(digit_run(s@, i as int) == 0);
    if value > 255 {
        return None;
    }
    Some((value, i))
}

/// Reads the octet that starts at `from` and the dot after it.
fn read_dotted_octet(s: &[u8], from: usize) -> (r: Option<(u32, usize)>)
    requires
        from <= s.len(),
    ensures
        match r {
            Some((value, next)) => dotted_octet_at(s@, from as int) == Some(
                (value as int, next as int),
            ) && value <= 255 && next <= s.len(),
            None => dotted_octet_at(s@, from as int) is None,
        },
{
    match read_octet(s, from) {
        Some((value, end)) => {
            if end < s.len() && s[end] == 46 {
                Some((value, end + 1))
            } else {
                None
            }
        },
        None => None,
    }
}

/// Reads `text` as an IPv4 address in dotted decimal notation.
pub fn parse_ipv4(text: &[u8]) -> (r: Option<Address>)
    ensures
        r == ipv4_of(text@),
{
    let (a, i) = match read_dotted_octet(text, 0) {
        Some(found) => found,
        None => {
            return None;
        },
    };
    let (b, j) = match read_dotted_octet(text, i) {
        Some(found) => found,
        None => {
            return None;
        },
    };
    let (c, k) = match read_dotted_octet(text, j) {
        Some(found) => found,
        None => {
            return None;
        },
    };
    let (d, end) = match read_octet(text, k) {
        Some(found) => found,
        None => {
            return None;
        },
    };
    if end != text.len() {
        return None;
    }
    Some(((a * 256 + b) * 256 + c) * 256 + d)
}

/// The cache key of the peer with address `peer`: the address as an IPv4
/// address, or the loopback address if it is not one.
pub fn address_key(peer: &[u8]) -> (key: Address)
    ensures
        key == key_of(peer@),
{
    match parse_ipv4(peer) {
        Some(address) => address,
        None => LOOPBACK,
    }
}

/// The cache key for a connection with the given source address.
pub fn locate_key(remote: Option<&[u8]>) -> (key: Address)
    ensures
        key == key_of(
            peer_of(
                match remote {
                    Some(text) => Some(text@),
                    None => None,
                },
            ),
        ),
{
    let peer = peer_address(remote);
    address_key(peer.as_slice())
}

} // verus!
