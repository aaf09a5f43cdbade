//! Network addresses as text.

use vstd::prelude::*;
use vstd::string::*;

verus! {

/// The character of a decimal digit.
pub open spec fn digit_char(digit: nat) -> char {
    ('0' as u32 + digit) as char
}

/// A number in decimal, without leading zeros.
pub open spec fn decimal_text(number: nat) -> Seq<char>
    decreases number,
{
    if number < 10 {
        seq![digit_char(number)]
    } else {
        decimal_text(number / 10).push(digit_char(number % 10))
    }
}

/// A host and a port joined by a colon.
pub open spec fn address_text(host: Seq<char>, port: u16) -> Seq<char> {
    host + seq![':'] + decimal_text(port as nat)
}

fn digit(number: u16) -> (text: &'static str)
    requires
        number < 10,
    ensures
        text@ == seq![digit_char(number as nat)],
{
    proof {
        reveal_strlit("0");
        reveal_strlit("1");
        reveal_strlit("2");
        reveal_strlit("3");
        reveal_strlit("4");
        reveal_strlit("5");
        reveal_strlit("6");
        reveal_strlit("7");
        reveal_strlit("8");
        reveal_strlit("9");
    }
    let text: &'static str = match number {
        0 => "0",
        1 => "1",
        2 => "2",
        3 => "3",
        4 => "4",
        5 => "5",
        6 => "6",
        7 => "7",
        8 => "8",
        _ => "9",
    };
    assert(text@ =~= seq![digit_char(number as nat)]);
    text
}

/// Appends a number in decimal.
fn push_decimal(text: &mut String, number: u16)
    ensures
        final(text)@ == old(text)@ + decimal_text(number as nat),
    decreases number,
{
    if number >= 10 {
        push_decimal(text, number / 10);
    }
    let ghost before = text@;
    text.append(digit(number % 10));
    assert(text@ =~= old(text)@ + decimal_text(number as nat));
}

/// The text of a host and a port.
pub fn socket_address(host: &str, port: u16) -> (text: String)
    ensures
        text@ == address_text(host@, port),
{
    let mut text: String = host.to_string();
    text.append(":");
    push_decimal(&mut text, port);
    proof {
        reveal_strlit(":");
        assert(":"@ =~= seq![':']);
    }
    text
}

/// The address of a server's audio and control connection.
pub fn server_url(host: &str, port: u16) -> (url: String)
    ensures
        url@ == "ws://"@ + address_text(host@, port),
{
    let mut url: String = "ws://".to_string();
    url.append(socket_address(host, port).as_str());
    url
}

/// The digit that a character stands for.
pub open spec fn digit_value(c: char) -> int {
    c as int - '0' as int
}

/// The number that a row of decimal digits stands for.
pub open spec fn decimal_value(text: Seq<char>) -> int
    decreases text.len(),
{
    if text.len() == 0 {
        0
    } else {
        10 * decimal_value(text.drop_last()) + digit_value(text.last())
    }
}

/// A number in decimal is read back as that number, has digits only, and no leading zero unless it
/// is zero.
pub proof fn law_decimal_is_read_back(number: nat)
    ensures
        decimal_value(decimal_text(number)) == number,
        decimal_text(number).len() > 0,
        forall|i: int|
            0 <= i < decimal_text(number).len() ==> '0' <= #[trigger] decimal_text(number)[i]
                <= '9',
        decimal_text(number)[0] == '0' ==> number == 0 && decimal_text(number).len() == 1,
    decreases number,
{
    let text = decimal_text(number);
    if number >= 10 {
        law_decimal_is_read_back(number / 10);
        let before = decimal_text(number / 10);
        assert(text.drop_last() =~= before);
        assert(text[0] == before[0]);
        assert forall|i: int| 0 <= i < text.len() implies '0' <= #[trigger] text[i] <= '9' by {
            if i < before.len() {
                assert(text[i] == before[i]);
            }
        }
    } else {
        reveal_with_fuel(decimal_value, 2);
    }
}

/// An address is the host, a colon, and the digits of the port.
pub proof fn law_address_is_host_and_port(host: Seq<char>, port: u16)
    ensures
        address_text(host, port).take(host.len() as int) == host,
        address_text(host, port)[host.len() as int] == ':',
        decimal_value(address_text(host, port).skip(host.len() as int + 1)) == port,
        forall|i: int|
            host.len() < i < address_text(host, port).len() ==> '0' <= #[trigger] address_text(
                host,
                port,
            )[i] <= '9',
{
    let digits = decimal_text(port as nat);
    let text = address_text(host, port);
    law_decimal_is_read_back(port as nat);
    assert(text.take(host.len() as int) =~= host);
    assert(text.skip(host.len() as int + 1) =~= digits);
    assert forall|i: int| host.len() < i < text.len() implies '0' <= #[trigger] text[i] <= '9' by {
        assert(text[i] == digits[i - host.len() - 1]);
    }
}

/// The text of an address is the host, a colon, and digits that are read back as the port.
pub proof fn law_socket_address(host: &str, port: u16, text: String)
    requires
        call_ensures(socket_address, (host, port), text),
    ensures
        text@.take(host@.len() as int) == host@,
        text@[host@.len() as int] == ':',
        decimal_value(text@.skip(host@.len() as int + 1)) == port,
{
    law_address_is_host_and_port(host@, port);
}

} // verus!
