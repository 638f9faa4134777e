//! Reads where to listen or whom to call from what a user writes: `host` or `host:port`.

use vstd::prelude::*;
use vstd::string::StrSliceExecFns;

verus! {

/// What follows the first colon is not a port.
#[derive(Debug, Clone, Copy, PartialEq, Eq, Structural)]
pub struct InvalidPort;

/// The place of the first colon of `text`, or its length where it has none.
pub open spec fn first_colon(text: Seq<char>) -> int
    decreases text.len(),
{
    if text.len() == 0 || text[0] == ':' {
        0
    } else {
        1 + first_colon(text.skip(1))
    }
}

/// What tells the place of the first colon.
pub proof fn lemma_first_colon(text: Seq<char>, at: int)
    requires
        0 <= at <= text.len(),
        at < text.len() ==> text[at] == ':',
        forall|i: int| 0 <= i < at ==> text[i] != ':',
    ensures
        first_colon(text) == at,
    decreases text.len(),
{
    if at > 0 {
        lemma_first_colon(text.skip(1), at - 1);
    }
}

/// Whether a character is a decimal digit.
pub open spec fn is_digit(c: char) -> bool {
    '0' <= c <= '9'
}

/// What decimal digits stand for.
pub open spec fn decimal(digits: Seq<char>) -> nat
    decreases digits.len(),
{
    if digits.len() == 0 {
        0
    } else {
        10 * decimal(digits.drop_last()) + (digits.last() as nat - '0' as nat) as nat
    }
}

/// A number without the plus sign that it may begin with.
pub open spec fn unsigned(text: Seq<char>) -> Seq<char> {
    if text.len() > 0 && text[0] == '+' {
        text.skip(1)
    } else {
        text
    }
}

/// The port that `text` writes in decimal digits, behind a plus sign or none, if it does.
pub open spec fn port_of(text: Seq<char>) -> Option<u16> {
    let digits = unsigned(text);
    if digits.len() > 0 && (forall|i: int|
        0 <= i < digits.len() ==> is_digit(#[trigger] digits[i])) && decimal(digits) <= u16::MAX {
        Some(decimal(digits) as u16)
    } else {
        None
    }
}

/// More digits do not make a number smaller.
proof fn lemma_decimal_grows(digits: Seq<char>, n: int)
    requires
        0 <= n <= digits.len(),
        forall|i: int| 0 <= i < digits.len() ==> is_digit(#[trigger] digits[i]),
    ensures
        decimal(digits.take(n)) <= decimal(digits),
    decreases digits.len(),
{
    if n == digits.len() {
        assert(digits.take(n) =~= digits);
    } else {
        lemma_decimal_grows(digits.drop_last(), n);
        assert(digits.drop_last().take(n) =~= digits.take(n));
    }
}

/// Reads a port from the characters of `text` from `start` on.
fn parse_port(text: &Vec<char>, start: usize) -> (port: Option<u16>)
    requires
        start <= text@.len(),
    ensures
        port == port_of(text@.skip(start as int)),
{
    let ghost all = text@.skip(start as int);
    let ghost digits = unsigned(all);
    let mut at: usize = start;
    if at < text.len() && text[at] == '+' {
        at = at + 1;
    }
    assert(digits =~= text@.skip(at as int));
    if at == text.len() {
        return None;
    }
    let first: usize = at;
    let mut value: u32 = 0;
    while at < text.len()
        invariant
            first <= at <= text@.len(),
            all == text@.skip(start as int),
            digits == unsigned(all),
            digits == text@.skip(first as int),
            forall|i: int| 0 <= i < at - first ==> is_digit(#[trigger] digits[i]),
            value == decimal(digits.take(at - first)),
            value <= u16::MAX,
        decreases text@.len() - at,
    {
        let c = text[at];
        assert(c == digits[at - first]);
        if c < '0' || c > '9' {
            assert(!is_digit(digits[at - first]));
            return None;
        }
        proof {
            let next = digits.take(at - first + 1);
            assert(next.drop_last() =~= digits.take(at - first));
        }
        value = value * 10 + (c as u32 - '0' as u32);
        at = at + 1;
        if value > 65535 {
            proof {
                if port_of(all) is Some {
                    lemma_decimal_grows(digits, at - first);
                }
            }
            return None;
        }
    }
    assert(digits.take(at - first) =~= digits);
    Some(value as u16)
}

/// Splits an address at its first colon into host and port. The port is `default_port` where
/// there is no colon.
pub fn host_and_port<'a>(address: &'a str, default_port: u16) -> (outcome: Result<
    (&'a str, u16),
    InvalidPort,
>)
    ensures
        ({
            let at = first_colon(address@);
            if at == address@.len() {
                &&& outcome matches Ok((host, port))
                &&& host@ == address@
                &&& port == default_port
            } else {
                match port_of(address@.skip(at + 1)) {
                    Some(written) => {
                        &&& outcome matches Ok((host, port))
                        &&& host@ == address@.take(at)
                        &&& port == written
                    },
                    None => outcome == Err::<(&str, u16), InvalidPort>(InvalidPort),
                }
            }
        }),
{
    let mut text: Vec<char> = Vec::new();
    for c in it: address.chars()
        invariant
            it.seq() == address@,
            text@ == address@.take(it.index()),
    {
        text.push(c);
    }
    assert(text@ =~= address@);
    let mut at: usize = 0;
    while at < text.len() && text[at] != ':'
        invariant
            text@ == address@,
            at <= text@.len(),
            forall|i: int| 0 <= i < at ==> #[trigger] text@[i] != ':',
        decreases text@.len() - at,
    {
        at = at + 1;
    }
    proof {
        lemma_first_colon(address@, at as int);
    }
    let host = address.substring_char(0, at);
    assert(host@ =~= address@.take(at as int));
    if at == text.len() {
        return Ok((host, default_port));
    }
    match parse_port(&text, at + 1) {
        Some(port) => Ok((host, port)),
        None => Err(InvalidPort),
    }
}

} // verus!
