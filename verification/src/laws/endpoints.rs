//! How a host and a port are read.

use crate::endpoint::{decimal, first_colon, port_of};
use vstd::prelude::*;

verus! {

/// The first colon is a colon and has none before it. Where there is none, its place is the end.
pub proof fn law_first_colon_is_the_first(text: Seq<char>)
    ensures
        0 <= first_colon(text) <= text.len(),
        first_colon(text) < text.len() ==> text[first_colon(text)] == ':',
        forall|i: int| 0 <= i < first_colon(text) ==> #[trigger] text[i] != ':',
    decreases text.len(),
{
    if text.len() > 0 && text[0] != ':' {
        let rest = text.skip(1);
        law_first_colon_is_the_first(rest);
        assert forall|i: int| 0 <= i < first_colon(text) implies #[trigger] text[i] != ':' by {
            if i > 0 {
                assert(rest[i - 1] != ':');
            }
        }
        assert(first_colon(text) < text.len() ==> text[first_colon(text)] == rest[first_colon(
            rest,
        )]);
    }
}

/// No digits stand for 0, and one more digit at the end makes ten times what was there, and the
/// digit.
pub proof fn law_digits_are_read_to_the_base_ten(digits: Seq<char>, digit: char)
    requires
        '0' <= digit <= '9',
    ensures
        digits.len() == 0 ==> decimal(digits) == 0,
        decimal(digits.push(digit)) == 10 * decimal(digits) + (digit as int - '0' as int),
{
    assert(digits.push(digit).drop_last() =~= digits);
}

/// A text is a port if and only if it is one digit or more, nothing else, and what they stand for
/// is at most 65535. That is the port. A plus sign before the first digit does not matter.
pub proof fn law_port_is_digits(text: Seq<char>)
    requires
        text.len() > 0 ==> text[0] != '+',
    ensures
        port_of(text) is Some <==> {
            &&& text.len() > 0
            &&& forall|i: int| 0 <= i < text.len() ==> '0' <= #[trigger] text[i] <= '9'
            &&& decimal(text) <= 65535
        },
        port_of(text) matches Some(port) ==> port == decimal(text),
        port_of(seq!['+'] + text) == port_of(text),
{
    let signed = seq!['+'] + text;
    assert(signed.skip(1) =~= text);
}

/// A second plus sign makes a text no port.
pub proof fn law_port_has_one_sign_at_most(text: Seq<char>)
    requires
        text.len() > 1,
        text[0] == '+',
        text[1] == '+',
    ensures
        port_of(text) is None,
{
    assert(text.skip(1)[0] == '+');
}

} // verus!
