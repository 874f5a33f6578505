//! Tickets: an endpoint address as a line of text to paste, and back.

use vstd::prelude::*;
use vstd::string::*;
use vstd::utf8::*;

use crate::text::{lower, trimmed, upper};

verus! {

// ---- Base 32 ------------------------------------------------------------

/// Bit `j` of `data`, counted from the most significant bit of its first byte; zero
/// behind its end.
pub open spec fn bit(data: Seq<u8>, j: int) -> int {
    if 0 <= j < 8 * data.len() {
        (data[j / 8] as int / weight(7 - j % 8)) % 2
    } else {
        0
    }
}

/// Two to the power of `k`, for a bit number in a byte.
pub open spec fn weight(k: int) -> int {
    if k == 0 {
        1
    } else if k == 1 {
        2
    } else if k == 2 {
        4
    } else if k == 3 {
        8
    } else if k == 4 {
        16
    } else if k == 5 {
        32
    } else if k == 6 {
        64
    } else {
        128
    }
}

/// The `i`-th group of five bits of `data`.
pub open spec fn quintet(data: Seq<u8>, i: int) -> int {
    16 * bit(data, 5 * i) + 8 * bit(data, 5 * i + 1) + 4 * bit(data, 5 * i + 2) + 2 * bit(
        data,
        5 * i + 3,
    ) + bit(data, 5 * i + 4)
}

/// The symbol for five bits: `A` to `Z`, then `2` to `7`.
pub open spec fn symbol(v: int) -> u8 {
    if v < 26 {
        (65 + v) as u8
    } else {
        (24 + v) as u8
    }
}

/// `data` in base 32 without padding, one ASCII symbol for every five bits begun.
pub open spec fn base32(data: Seq<u8>) -> Seq<u8> {
    Seq::new(((8 * data.len() + 4) / 5) as nat, |i: int| symbol(quintet(data, i)))
}

/// ASCII bytes as text.
pub open spec fn ascii_text(bytes: Seq<u8>) -> Seq<char> {
    bytes.map_values(|b: u8| b as char)
}

proof fn lemma_bits_make_the_byte(v: u8)
    ensures
        v as int == 128 * ((v as int / 128) % 2) + 64 * ((v as int / 64) % 2) + 32 * ((v as int / 32)
            % 2) + 16 * ((v as int / 16) % 2) + 8 * ((v as int / 8) % 2) + 4 * ((v as int / 4) % 2)
            + 2 * ((v as int / 2) % 2) + (v as int % 2),
{
    let x = v as int;
    assert(x == 2 * (x / 2) + x % 2);
    assert(x / 2 == 2 * (x / 4) + (x / 2) % 2);
    assert(x / 4 == 2 * (x / 8) + (x / 4) % 2);
    assert(x / 8 == 2 * (x / 16) + (x / 8) % 2);
    assert(x / 16 == 2 * (x / 32) + (x / 16) % 2);
    assert(x / 32 == 2 * (x / 64) + (x / 32) % 2);
    assert(x / 64 == 2 * (x / 128) + (x / 64) % 2);
    assert(x / 128 == (x / 128) % 2);
}

proof fn lemma_bit_range(data: Seq<u8>, j: int)
    ensures
        bit(data, j) == 0 || bit(data, j) == 1,
{
}

proof fn lemma_same_quintet_same_bits(a: Seq<u8>, b: Seq<u8>, i: int)
    requires
        symbol(quintet(a, i)) == symbol(quintet(b, i)),
    ensures
        forall|k: int| 0 <= k < 5 ==> bit(a, 5 * i + k) == #[trigger] bit(b, 5 * i + k),
{
    assert forall|k: int| 0 <= k < 5 implies bit(a, 5 * i + k) == #[trigger] bit(b, 5 * i + k) by {
        lemma_bit_range(a, 5 * i);
        lemma_bit_range(a, 5 * i + 1);
        lemma_bit_range(a, 5 * i + 2);
        lemma_bit_range(a, 5 * i + 3);
        lemma_bit_range(a, 5 * i + 4);
        lemma_bit_range(b, 5 * i);
        lemma_bit_range(b, 5 * i + 1);
        lemma_bit_range(b, 5 * i + 2);
        lemma_bit_range(b, 5 * i + 3);
        lemma_bit_range(b, 5 * i + 4);
        assert(quintet(a, i) == quintet(b, i));
        assert(k == 0 || k == 1 || k == 2 || k == 3 || k == 4);
    }
}

proof fn lemma_same_bits_same_byte(a: Seq<u8>, b: Seq<u8>, n: int)
    requires
        0 <= n < a.len() == b.len(),
        forall|k: int| 0 <= k < 8 ==> bit(a, 8 * n + k) == #[trigger] bit(b, 8 * n + k),
    ensures
        a[n] == b[n],
{
    lemma_bits_make_the_byte(a[n]);
    lemma_bits_make_the_byte(b[n]);
    assert forall|k: int| 0 <= k < 8 implies (a[n] as int / #[trigger] weight(7 - k)) % 2 == (b[n] as int
        / weight(7 - k)) % 2 by {
        assert((8 * n + k) / 8 == n && (8 * n + k) % 8 == k);
        assert(bit(a, 8 * n + k) == bit(b, 8 * n + k));
    }
    assert(weight(7 - 0) == 128 && weight(7 - 1) == 64 && weight(7 - 2) == 32 && weight(7 - 3) == 16);
    assert(weight(7 - 4) == 8 && weight(7 - 5) == 4 && weight(7 - 6) == 2 && weight(7 - 7) == 1);
}

proof fn lemma_same_base32_same_bits(a: Seq<u8>, b: Seq<u8>, j: int)
    requires
        base32(a) == base32(b),
        a.len() == b.len(),
        0 <= j < 8 * a.len(),
    ensures
        bit(a, j) == bit(b, j),
{
    let i = j / 5;
    let k = j % 5;
    assert(0 <= i < base32(a).len());
    assert(base32(a)[i] == symbol(quintet(a, i)));
    assert(base32(b)[i] == symbol(quintet(b, i)));
    lemma_same_quintet_same_bits(a, b, i);
    assert(bit(a, 5 * i + k) == bit(b, 5 * i + k));
}

/// Different data have different base 32 texts.
pub proof fn base32_is_injective(a: Seq<u8>, b: Seq<u8>)
    requires
        base32(a) == base32(b),
    ensures
        a == b,
{
    let m = a.len() as int;
    let n = b.len() as int;
    assert(base32(a).len() == (8 * m + 4) / 5);
    assert(base32(b).len() == (8 * n + 4) / 5);
    assert((8 * m + 4) / 5 == (8 * n + 4) / 5 ==> m == n);
    assert forall|i: int| 0 <= i < a.len() implies a[i] == b[i] by {
        assert forall|k: int| 0 <= k < 8 implies bit(a, 8 * i + k) == #[trigger] bit(b, 8 * i + k) by {
            lemma_same_base32_same_bits(a, b, 8 * i + k);
        }
        lemma_same_bits_same_byte(a, b, i);
    }
    assert(a =~= b);
}

/// What goes wrong with base 32 text that does not decode.
#[verifier::external_type_specification]
#[verifier::external_body]
pub struct ExDecodeError(data_encoding::DecodeError);

/// `Encoding::encode` of the crate `data-encoding` for `BASE32_NOPAD`: the text is the
/// data in base 32, without padding. It panics on data longer than `usize::MAX / 512`.
#[verifier::external_body]
fn base32_encode(data: &[u8]) -> (r: String)
    requires
        data@.len() <= usize::MAX / 512,
    ensures
        r@ == ascii_text(base32(data@)),
{
    data_encoding::BASE32_NOPAD.encode(data)
}

/// `Encoding::decode` of the crate `data-encoding` for `BASE32_NOPAD`, a canonical
/// encoding: it gives back the data that encode to the input, and refuses every input
/// that nothing encodes to. It panics on input longer than `usize::MAX / 8`.
#[verifier::external_body]
fn base32_decode(input: &[u8]) -> (r: Result<Vec<u8>, data_encoding::DecodeError>)
    requires
        input@.len() <= usize::MAX / 8,
    ensures
        r matches Ok(data) ==> base32(data@) == input@,
        r is Err ==> forall|data: Seq<u8>| #[trigger] base32(data) != input@,
{
    data_encoding::BASE32_NOPAD.decode(input)
}

// ---- Addresses ----------------------------------------------------------

/// Where an endpoint can be reached: its node id and a set of transport addresses.
#[verifier::external_type_specification]
#[verifier::external_body]
pub struct ExEndpointAddr(iroh::EndpointAddr);

/// What goes wrong when postcard writes or reads a value.
#[verifier::external_type_specification]
#[verifier::external_body]
pub struct ExPostcardError(postcard::Error);

/// The bytes that postcard writes for what an address holds; `None` where it fails.
pub uninterp spec fn addr_wire(addr: iroh::EndpointAddr) -> Option<Seq<u8>>;

/// The address that postcard reads from `bytes`; `None` where it fails.
pub uninterp spec fn addr_read(bytes: Seq<u8>) -> Option<iroh::EndpointAddr>;

/// The transport addresses that an address holds, each as the bytes that postcard writes
/// for it.
pub uninterp spec fn addr_transports(addr: iroh::EndpointAddr) -> Set<Seq<u8>>;

/// The node id that an address holds: the 32 bytes that its byte form begins with.
pub open spec fn node_key(addr: iroh::EndpointAddr) -> Option<Seq<u8>> {
    match addr_wire(addr) {
        Some(wire) => Some(wire.take(32)),
        None => None,
    }
}

/// Two addresses hold the same node id and the same transport addresses.
pub open spec fn same_contents(a: iroh::EndpointAddr, b: iroh::EndpointAddr) -> bool {
    node_key(a) == node_key(b) && addr_transports(a) == addr_transports(b)
}

/// The bytes `t` of a transport address, alone in an address of the node `key`, are read back
/// as themselves.
pub open spec fn reads_alone(key: Seq<u8>, t: Seq<u8>) -> bool {
    addr_read(key + seq![1u8] + t) matches Some(back) && addr_transports(back) == set![t]
}

/// The transport address with the bytes `t` can be read back, for the node `key`. The bytes
/// begin with its kind: 0 for a relay, 1 for an IP address, 2 for a custom one. The last two
/// can always be; a relay where it is read back alone.
pub open spec fn can_be_read(key: Seq<u8>, t: Seq<u8>) -> bool {
    t.len() > 0 && (t[0] == 1 || t[0] == 2 || reads_alone(key, t))
}

/// Every transport address that an address holds can be read back.
pub open spec fn is_readable(addr: iroh::EndpointAddr) -> bool {
    node_key(addr) matches Some(key) && forall|t: Seq<u8>| #[trigger]
        addr_transports(addr).contains(t) ==> can_be_read(key, t)
}

/// `postcard::to_allocvec` on an endpoint address. The bytes are its node id, the number of
/// its transport addresses, and the bytes of each, so an address that is read from them has
/// the same node id. Where each transport address can be read back on its own, all of them
/// are. It is left unsaid which relays can be: a relay is written as the text of its URL,
/// and not every URL's text is parsed as that URL again.
#[verifier::external_body]
fn addr_to_bytes(addr: &iroh::EndpointAddr) -> (r: Result<Vec<u8>, postcard::Error>)
    ensures
        r matches Ok(bytes) ==> addr_wire(*addr) == Some(bytes@),
        r is Err ==> addr_wire(*addr) is None,
        r matches Ok(bytes) ==> (addr_read(bytes@) matches Some(back) ==> node_key(back)
            == node_key(*addr)),
        r matches Ok(bytes) ==> (forall|t: Seq<u8>| #[trigger]
            addr_transports(*addr).contains(t) ==> can_be_read(bytes@.take(32), t)) ==> (addr_read(
            bytes@,
        ) matches Some(back) && addr_transports(back) == addr_transports(*addr)),
{
    postcard::to_allocvec(addr)
}

/// `postcard::from_bytes` for an endpoint address.
#[verifier::external_body]
fn addr_from_bytes(bytes: &[u8]) -> (r: Result<iroh::EndpointAddr, postcard::Error>)
    ensures
        r matches Ok(addr) ==> addr_read(bytes@) == Some(addr),
        r is Err ==> addr_read(bytes@) is None,
{
    postcard::from_bytes(bytes)
}

// ---- Tickets ------------------------------------------------------------

/// Why a ticket cannot be made or read.
#[derive(Debug, Clone, Copy, PartialEq, Eq, Structural)]
pub enum TicketError {
    /// The address has no byte form.
    Encode,
    /// The byte form of the address, or the text, is too long for base 32.
    TooLong,
    /// The text is not base 32.
    Base32,
    /// The bytes are not an address.
    Postcard,
}

/// The message of a ticket error.
pub open spec fn ticket_message(e: TicketError) -> Seq<char> {
    match e {
        TicketError::Encode => "encoding addr"@,
        TicketError::TooLong => "address too long"@,
        TicketError::Base32 => "base32 decode"@,
        TicketError::Postcard => "postcard decode"@,
    }
}

impl TicketError {
    /// What to tell the user.
    pub fn message(&self) -> (r: &'static str)
        ensures
            r@ == ticket_message(*self),
    {
        match self {
            TicketError::Encode => "encoding addr",
            TicketError::TooLong => "address too long",
            TicketError::Base32 => "base32 decode",
            TicketError::Postcard => "postcard decode",
        }
    }
}

/// The ticket that carries `bytes`: base 32 in small letters.
pub open spec fn ticket_of(bytes: Seq<u8>) -> Seq<char> {
    lower(ascii_text(base32(bytes)))
}

/// `text` is a ticket that carries `bytes`, whatever its letter case and the white
/// space around it.
pub open spec fn carries(text: Seq<char>, bytes: Seq<u8>) -> bool {
    base32(bytes) == encode_utf8(upper(trimmed(text)))
}

/// `text` is longer than any text that is decoded.
pub open spec fn is_too_long(text: Seq<char>) -> bool {
    encode_utf8(upper(trimmed(text))).len() > usize::MAX / 8
}

/// The ticket that carries `bytes`.
pub fn ticket_text(bytes: &[u8]) -> (ticket: String)
    requires
        bytes@.len() <= usize::MAX / 512,
    ensures
        ticket@ == ticket_of(bytes@),
{
    base32_encode(bytes).as_str().to_lowercase()
}

/// The bytes that a ticket carries.
pub fn ticket_bytes(text: &str) -> (r: Result<Vec<u8>, TicketError>)
    ensures
        r matches Ok(bytes) ==> !is_too_long(text@) && carries(text@, bytes@),
        r == Err::<Vec<u8>, TicketError>(TicketError::TooLong) <==> is_too_long(text@),
        r == Err::<Vec<u8>, TicketError>(TicketError::Base32) <==> !is_too_long(text@) && forall|
            bytes: Seq<u8>,
        |
            !#[trigger] carries(text@, bytes),
        r matches Err(e) ==> e == TicketError::TooLong || e == TicketError::Base32,
{
    let capitals = text.trim().to_uppercase();
    if capitals.as_str().as_bytes().len() > usize::MAX / 8 {
        return Err(TicketError::TooLong);
    }
    match base32_decode(capitals.as_str().as_bytes()) {
        Ok(bytes) => Ok(bytes),
        Err(_) => Err(TicketError::Base32),
    }
}

/// `text` is a ticket: the bytes that it carries are those of an address.
pub open spec fn is_ticket(text: Seq<char>) -> bool {
    exists|bytes: Seq<u8>| #[trigger] carries(text, bytes) && addr_read(bytes) is Some
}

/// `text` is a ticket for `addr`.
pub open spec fn leads_to(text: Seq<char>, addr: iroh::EndpointAddr) -> bool {
    exists|bytes: Seq<u8>| #[trigger] carries(text, bytes) && addr_read(bytes) == Some(addr)
}

/// `text` is a ticket for an address that holds what `addr` holds.
pub open spec fn stands_for(text: Seq<char>, addr: iroh::EndpointAddr) -> bool {
    exists|bytes: Seq<u8>| #[trigger]
        carries(text, bytes) && (addr_read(bytes) matches Some(back) && same_contents(back, addr))
}

/// The ticket for an endpoint address. It leads to the address that is read from the bytes
/// of `addr`, which has the same node id. Where each transport address of `addr` can be read
/// back, there is such an address, and it has the same of these too.
pub fn encode_ticket(addr: &iroh::EndpointAddr) -> (r: Result<String, TicketError>)
    ensures
        r matches Ok(ticket) ==> (addr_wire(*addr) matches Some(wire) && wire.len() <= usize::MAX / 512
            && ticket@ == ticket_of(wire)),
        r == Err::<String, TicketError>(TicketError::Encode) <==> addr_wire(*addr) is None,
        r == Err::<String, TicketError>(TicketError::TooLong) <==> (addr_wire(*addr) matches Some(wire)
            && wire.len() > usize::MAX / 512),
        r != Err::<String, TicketError>(TicketError::Base32),
        r != Err::<String, TicketError>(TicketError::Postcard),
        r matches Ok(ticket) ==> !is_too_long(ticket@),
        r matches Ok(ticket) ==> (addr_read(addr_wire(*addr)->0) matches Some(back) ==> leads_to(
            ticket@,
            back,
        ) && node_key(back) == node_key(*addr)),
        r matches Ok(ticket) ==> is_readable(*addr) ==> stands_for(ticket@, *addr),
{
    match addr_to_bytes(addr) {
        Ok(bytes) => {
            if bytes.len() > usize::MAX / 512 {
                Err(TicketError::TooLong)
            } else {
                let ticket = ticket_text(bytes.as_slice());
                proof {
                    a_ticket_is_recased(bytes@);
                    tickets_survive_pasting(bytes@, seq![], ticket@, seq![]);
                    lemma_ticket_length(bytes@, seq![], ticket@, seq![]);
                    assert(Seq::<char>::empty() + ticket@ + Seq::<char>::empty() =~= ticket@);
                    assert(carries(ticket@, bytes@));
                }
                Ok(ticket)
            }
        },
        Err(_) => Err(TicketError::Encode),
    }
}

/// The endpoint address that a ticket stands for.
pub fn decode_ticket(text: &str) -> (r: Result<iroh::EndpointAddr, TicketError>)
    ensures
        r is Ok <==> !is_too_long(text@) && is_ticket(text@),
        r matches Ok(addr) ==> leads_to(text@, addr),
        r == Err::<iroh::EndpointAddr, TicketError>(TicketError::TooLong) <==> is_too_long(text@),
        r == Err::<iroh::EndpointAddr, TicketError>(TicketError::Base32) <==> !is_too_long(text@)
            && forall|bytes: Seq<u8>| !#[trigger] carries(text@, bytes),
        r == Err::<iroh::EndpointAddr, TicketError>(TicketError::Postcard) <==> !is_too_long(text@)
            && exists|bytes: Seq<u8>| #[trigger]
            carries(text@, bytes) && addr_read(bytes) is None,
        r != Err::<iroh::EndpointAddr, TicketError>(TicketError::Encode),
{
    match ticket_bytes(text) {
        Ok(bytes) => {
            assert(carries(text@, bytes@));
            assert forall|other: Seq<u8>| #[trigger] carries(text@, other) implies other
                == bytes@ by {
                base32_is_injective(other, bytes@);
            }
            match addr_from_bytes(bytes.as_slice()) {
                Ok(addr) => Ok(addr),
                Err(_) => Err(TicketError::Postcard),
            }
        },
        Err(e) => Err(e),
    }
}

/// `text` is what a ticket for `bytes` may look like after it was passed on: its
/// letters in any case.
pub open spec fn is_recased(text: Seq<char>, bytes: Seq<u8>) -> bool {
    text.map_values(|c: char| crate::text::ascii_upper_char(c)) == ascii_text(base32(bytes))
}

/// A ticket comes through pasting: with its letters in any case and any white space
/// around it, it carries the bytes that it was made for, and no others.
pub proof fn tickets_survive_pasting(
    bytes: Seq<u8>,
    before: Seq<char>,
    text: Seq<char>,
    after: Seq<char>,
)
    requires
        crate::text::all_white_space(before),
        crate::text::all_white_space(after),
        is_recased(text, bytes),
    ensures
        forall|other: Seq<u8>| #[trigger]
            carries(before + text + after, other) <==> other == bytes,
{
    let capitals = ascii_text(base32(bytes));
    lemma_base32_is_ascii(bytes);
    let mapped = text.map_values(|c: char| crate::text::ascii_upper_char(c));
    assert(text.len() == capitals.len());
    assert forall|i: int| 0 <= i < text.len() implies 0 <= #[trigger] text[i] as int <= 127
        && !crate::text::is_white_space(text[i]) by {
        assert(mapped[i] == capitals[i]);
        assert(crate::text::ascii_upper_char(text[i]) == capitals[i]);
    }
    assert(is_ascii_chars(text));
    crate::text::padding_is_trimmed_off(before, text, after);
    assert(upper(text) == capitals);
    is_ascii_chars_encode_utf8(capitals);
    assert(encode_utf8(capitals) =~= base32(bytes));
    assert forall|other: Seq<u8>| #[trigger] carries(before + text + after, other) implies other
        == bytes by {
        base32_is_injective(other, bytes);
    }
    assert(carries(before + text + after, bytes));
}

proof fn lemma_ticket_length(
    bytes: Seq<u8>,
    before: Seq<char>,
    text: Seq<char>,
    after: Seq<char>,
)
    requires
        bytes.len() <= usize::MAX / 512,
        crate::text::all_white_space(before),
        crate::text::all_white_space(after),
        is_recased(text, bytes),
    ensures
        !is_too_long(before + text + after),
{
    tickets_survive_pasting(bytes, before, text, after);
    assert(carries(before + text + after, bytes));
    assert(base32(bytes).len() == (8 * bytes.len() + 4) / 5);
}

/// The ticket that is handed out is one of the forms that can be pasted.
pub proof fn a_ticket_is_recased(bytes: Seq<u8>)
    ensures
        is_recased(ticket_of(bytes), bytes),
{
    let capitals = ascii_text(base32(bytes));
    lemma_base32_is_ascii(bytes);
    assert(is_ascii_chars(capitals));
    let again = ticket_of(bytes).map_values(|c: char| crate::text::ascii_upper_char(c));
    assert forall|i: int| 0 <= i < capitals.len() implies again[i] == capitals[i] by {
        assert(ticket_of(bytes)[i] == crate::text::ascii_lower_char(capitals[i]));
    }
    assert(again =~= capitals);
}

proof fn lemma_base32_is_ascii(bytes: Seq<u8>)
    ensures
        forall|i: int|
            #![trigger ascii_text(base32(bytes))[i]]
            0 <= i < base32(bytes).len() ==> ('A' <= ascii_text(base32(bytes))[i] <= 'Z' || '2'
                <= ascii_text(base32(bytes))[i] <= '7') && ascii_text(base32(bytes))[i] as u8
                == base32(bytes)[i],
{
    assert forall|i: int|
        #![trigger ascii_text(base32(bytes))[i]]
        0 <= i < base32(bytes).len() implies ('A' <= ascii_text(base32(bytes))[i] <= 'Z' || '2'
        <= ascii_text(base32(bytes))[i] <= '7') && ascii_text(base32(bytes))[i] as u8 == base32(
        bytes,
    )[i] by {
        assert(base32(bytes)[i] == symbol(quintet(bytes, i)));
        lemma_bit_range(bytes, 5 * i);
        lemma_bit_range(bytes, 5 * i + 1);
        lemma_bit_range(bytes, 5 * i + 2);
        lemma_bit_range(bytes, 5 * i + 3);
        lemma_bit_range(bytes, 5 * i + 4);
    }
}

/// A ticket stands for one address at most.
pub proof fn a_ticket_leads_to_one_address(
    text: Seq<char>,
    a: iroh::EndpointAddr,
    b: iroh::EndpointAddr,
)
    requires
        leads_to(text, a),
        leads_to(text, b),
    ensures
        a == b,
{
    let x = choose|bytes: Seq<u8>| #[trigger] carries(text, bytes) && addr_read(bytes) == Some(a);
    let y = choose|bytes: Seq<u8>| #[trigger] carries(text, bytes) && addr_read(bytes) == Some(b);
    base32_is_injective(x, y);
}

/// A ticket leads back to where it came from: with its letters in any case and any white
/// space around it, the text that was handed out for `addr` is a ticket that is not too
/// long to read, and the address that is read from it has the node id and the transport
/// addresses of `addr`.
pub proof fn a_pasted_ticket_leads_back(
    bytes: Seq<u8>,
    addr: iroh::EndpointAddr,
    before: Seq<char>,
    text: Seq<char>,
    after: Seq<char>,
)
    requires
        bytes.len() <= usize::MAX / 512,
        stands_for(ticket_of(bytes), addr),
        crate::text::all_white_space(before),
        crate::text::all_white_space(after),
        is_recased(text, bytes),
    ensures
        !is_too_long(before + text + after),
        is_ticket(before + text + after),
        forall|read: iroh::EndpointAddr| #[trigger]
            leads_to(before + text + after, read) ==> same_contents(read, addr),
{
    let ticket = ticket_of(bytes);
    let pasted = before + text + after;
    lemma_ticket_length(bytes, before, text, after);
    a_ticket_is_recased(bytes);
    tickets_survive_pasting(bytes, seq![], ticket, seq![]);
    assert(Seq::<char>::empty() + ticket + Seq::<char>::empty() =~= ticket);
    tickets_survive_pasting(bytes, before, text, after);
    assert(carries(pasted, bytes));
    let x = choose|x: Seq<u8>| #[trigger]
        carries(ticket, x) && (addr_read(x) matches Some(back) && same_contents(back, addr));
    assert(x == bytes);
    assert forall|read: iroh::EndpointAddr| #[trigger] leads_to(pasted, read) implies same_contents(
        read,
        addr,
    ) by {
        let y = choose|y: Seq<u8>| #[trigger] carries(pasted, y) && addr_read(y) == Some(read);
        assert(y == bytes);
    }
}

/// A pasted ticket leads to the address that is read from the bytes that it was made of,
/// and to no other.
pub proof fn a_pasted_ticket_leads_to_what_was_written(
    bytes: Seq<u8>,
    back: iroh::EndpointAddr,
    before: Seq<char>,
    text: Seq<char>,
    after: Seq<char>,
)
    requires
        bytes.len() <= usize::MAX / 512,
        addr_read(bytes) == Some(back),
        crate::text::all_white_space(before),
        crate::text::all_white_space(after),
        is_recased(text, bytes),
    ensures
        !is_too_long(before + text + after),
        forall|read: iroh::EndpointAddr| #[trigger]
            leads_to(before + text + after, read) <==> read == back,
{
    let pasted = before + text + after;
    lemma_ticket_length(bytes, before, text, after);
    tickets_survive_pasting(bytes, before, text, after);
    assert(carries(pasted, bytes));
    assert(leads_to(pasted, back));
    assert forall|read: iroh::EndpointAddr| #[trigger] leads_to(pasted, read) implies read
        == back by {
        a_ticket_leads_to_one_address(pasted, read, back);
    }
}

// ---- Node ids -----------------------------------------------------------

/// The small hexadecimal digit for four bits.
pub open spec fn hex_digit(v: int) -> char {
    if v < 10 {
        (48 + v) as char
    } else {
        (87 + v) as char
    }
}

/// `bytes` in hexadecimal, two small digits for each.
pub open spec fn hex(bytes: Seq<u8>) -> Seq<char> {
    Seq::new(
        2 * bytes.len(),
        |i: int| hex_digit(if i % 2 == 0 {
            bytes[i / 2] as int / 16
        } else {
            bytes[i / 2] as int % 16
        }),
    )
}

/// `text` spells the key `key`: in small hexadecimal digits, or in base 32 with its
/// letters in any case.
pub open spec fn spells(text: Seq<char>, key: Seq<u8>) -> bool {
    &&& key.len() == 32
    &&& text == hex(key) || is_recased(text, key)
}

/// What goes wrong with text that is no public key.
#[verifier::external_type_specification]
#[verifier::external_body]
pub struct ExKeyParsingError(iroh::KeyParsingError);

/// Whether `PublicKey::from_bytes` takes these 32 bytes for a key: whether they are a
/// point on the curve.
pub uninterp spec fn is_public_key(key: Seq<u8>) -> bool;

/// `<PublicKey as FromStr>::from_str` of the crate `iroh`, with the key as bytes: it reads
/// the hexadecimal and the base 32 spelling of a key, and refuses text that spells
/// nothing or no key. It panics on text longer than `usize::MAX / 8` bytes.
#[verifier::external_body]
fn public_key(text: &str) -> (r: Result<[u8; 32], iroh::KeyParsingError>)
    requires
        encode_utf8(text@).len() <= usize::MAX / 8,
    ensures
        r matches Ok(key) ==> spells(text@, key@) && is_public_key(key@),
        r is Err ==> forall|key: Seq<u8>| #[trigger] spells(text@, key) ==> !is_public_key(key),
{
    text.parse::<iroh::PublicKey>().map(|key| *key.as_bytes())
}

/// The text is not a node id.
#[derive(Debug, Clone, Copy, PartialEq, Eq, Structural)]
pub struct NodeIdError;

impl NodeIdError {
    /// What to tell the user.
    pub fn message(&self) -> (r: &'static str)
        ensures
            r@ == "parsing node id"@,
    {
        "parsing node id"
    }
}

/// The key that a node id spells, whatever white space surrounds it.
pub open spec fn key_of(text: Seq<char>) -> Option<Seq<u8>> {
    if exists|key: Seq<u8>| #[trigger] spells(trimmed(text), key) && is_public_key(key) {
        Some(choose|key: Seq<u8>| #[trigger] spells(trimmed(text), key) && is_public_key(key))
    } else {
        None
    }
}

/// The key that a node id spells.
pub fn parse_public_key(text: &str) -> (r: Result<[u8; 32], NodeIdError>)
    ensures
        r matches Ok(key) ==> key_of(text@) == Some(key@),
        r is Err ==> key_of(text@) is None,
{
    let ghost whole = text@;
    let text = text.trim();
    if text.as_bytes().len() > usize::MAX / 8 {
        assert forall|key: Seq<u8>| #[trigger] spells(text@, key) implies false by {
            lemma_spelling_is_short(text@, key);
        }
        return Err(NodeIdError);
    }
    match public_key(text) {
        Ok(key) => {
            proof {
                a_node_id_spells_one_key(text@, key@, key_of(whole).unwrap());
            }
            Ok(key)
        },
        Err(_) => Err(NodeIdError),
    }
}

proof fn lemma_spelling_is_short(text: Seq<char>, key: Seq<u8>)
    requires
        spells(text, key),
    ensures
        encode_utf8(text).len() <= 64,
{
    if text == hex(key) {
        assert forall|i: int| 0 <= i < text.len() implies 0 <= #[trigger] text[i] as int <= 127 by {
            assert(text[i] == hex(key)[i]);
        }
    } else {
        let capitals = ascii_text(base32(key));
        lemma_base32_is_ascii(key);
        let mapped = text.map_values(|c: char| crate::text::ascii_upper_char(c));
        assert(mapped.len() == 52);
        assert forall|i: int| 0 <= i < text.len() implies 0 <= #[trigger] text[i] as int <= 127 by {
            assert(mapped[i] == capitals[i]);
        }
    }
    assert(is_ascii_chars(text));
    is_ascii_chars_encode_utf8(text);
}

/// A node id spells one key at most.
pub proof fn a_node_id_spells_one_key(text: Seq<char>, a: Seq<u8>, b: Seq<u8>)
    requires
        spells(text, a),
        spells(text, b),
    ensures
        a == b,
{
    if text == hex(a) {
        assert(text.len() == 64);
        if text != hex(b) {
            assert(text.map_values(|c: char| crate::text::ascii_upper_char(c)).len() == 64);
            assert(ascii_text(base32(b)).len() == 52);
        }
        assert forall|i: int| 0 <= i < 32 implies a[i] == b[i] by {
            assert(hex(a)[2 * i] == hex(b)[2 * i]);
            assert(hex(a)[2 * i + 1] == hex(b)[2 * i + 1]);
            assert((2 * i) / 2 == i && (2 * i + 1) / 2 == i);
        }
        assert(a =~= b);
    } else {
        if text == hex(b) {
            assert(text.map_values(|c: char| crate::text::ascii_upper_char(c)).len() == 64);
            assert(ascii_text(base32(a)).len() == 52);
        }
        assert(ascii_text(base32(a)) == ascii_text(base32(b)));
        assert forall|i: int| 0 <= i < base32(a).len() implies base32(a)[i] == base32(b)[i] by {
            lemma_base32_is_ascii(a);
            lemma_base32_is_ascii(b);
            assert(ascii_text(base32(a))[i] == ascii_text(base32(b))[i]);
        }
        assert(ascii_text(base32(a)).len() == ascii_text(base32(b)).len());
        assert(base32(a) =~= base32(b));
        base32_is_injective(a, b);
    }
}

/// Whoever was met can be dialed again: either spelling of a key, with any white space
/// around it, is read back as that key.
pub proof fn a_node_id_is_read_back(
    key: Seq<u8>,
    before: Seq<char>,
    text: Seq<char>,
    after: Seq<char>,
)
    requires
        spells(text, key),
        is_public_key(key),
        crate::text::all_white_space(before),
        crate::text::all_white_space(after),
    ensures
        key_of(before + text + after) == Some(key),
{
    if text == hex(key) {
        assert(text.first() == hex_digit(key[0] as int / 16));
        assert(text.last() == hex_digit(key[31] as int % 16));
    } else {
        let capitals = ascii_text(base32(key));
        lemma_base32_is_ascii(key);
        let mapped = text.map_values(|c: char| crate::text::ascii_upper_char(c));
        assert(mapped[0] == capitals[0]);
        assert(mapped[capitals.len() - 1] == capitals[capitals.len() - 1]);
    }
    assert(crate::text::is_trimmed(text));
    crate::text::padding_is_trimmed_off(before, text, after);
    assert(spells(text, key));
    a_node_id_spells_one_key(text, key, key_of(before + text + after).unwrap());
}

// ---- What tickets come to -----------------------------------------------

/// A ticket is made of small letters and the digits 2 to 7 alone, one for every five bits
/// begun.
pub proof fn a_ticket_is_small_letters_and_digits(bytes: Seq<u8>)
    ensures
        ticket_of(bytes).len() == (8 * bytes.len() + 4) / 5,
        forall|i: int|
            0 <= i < ticket_of(bytes).len() ==> ('a' <= #[trigger] ticket_of(bytes)[i] <= 'z' || '2'
                <= ticket_of(bytes)[i] <= '7'),
{
    let capitals = ascii_text(base32(bytes));
    lemma_base32_is_ascii(bytes);
    assert(is_ascii_chars(capitals));
    assert forall|i: int| 0 <= i < ticket_of(bytes).len() implies ('a' <= #[trigger] ticket_of(
        bytes,
    )[i] <= 'z' || '2' <= ticket_of(bytes)[i] <= '7') by {
        assert(ticket_of(bytes)[i] == crate::text::ascii_lower_char(capitals[i]));
    }
}

/// A text carries bytes only where it is, but for letter case and the white space around it,
/// their base 32: nothing else in it is passed over.
pub proof fn only_a_ticket_carries_bytes(text: Seq<char>, bytes: Seq<u8>)
    requires
        is_ascii_chars(trimmed(text)),
    ensures
        carries(text, bytes) <==> trimmed(text).map_values(
            |c: char|
                if 'a' <= c <= 'z' {
                    (c as int - 32) as char
                } else {
                    c
                },
        ) == ascii_text(base32(bytes)),
{
    let capitals = ascii_text(base32(bytes));
    lemma_base32_is_ascii(bytes);
    assert(is_ascii_chars(capitals));
    is_ascii_chars_encode_utf8(capitals);
    assert(encode_utf8(capitals) =~= base32(bytes));
    let t = trimmed(text);
    let mapped = t.map_values(
        |c: char|
            if 'a' <= c <= 'z' {
                (c as int - 32) as char
            } else {
                c
            },
    );
    assert(mapped =~= upper(t));
    if carries(text, bytes) {
        encode_utf8_decode_utf8(capitals);
        encode_utf8_decode_utf8(upper(t));
        assert(upper(t) == capitals);
    }
}

/// Whatever bytes a text carries, it is a ticket exactly where they are those of an address,
/// and leads to that address alone.
pub proof fn a_ticket_leads_where_its_bytes_do(text: Seq<char>, bytes: Seq<u8>)
    requires
        carries(text, bytes),
    ensures
        is_ticket(text) <==> addr_read(bytes) is Some,
        forall|addr: iroh::EndpointAddr| #[trigger]
            leads_to(text, addr) <==> addr_read(bytes) == Some(addr),
{
    assert forall|other: Seq<u8>| #[trigger] carries(text, other) implies other == bytes by {
        base32_is_injective(other, bytes);
    }
}

/// A text that carries nothing is no ticket and leads nowhere.
pub proof fn what_carries_nothing_is_no_ticket(text: Seq<char>, addr: iroh::EndpointAddr)
    requires
        forall|bytes: Seq<u8>| !#[trigger] carries(text, bytes),
    ensures
        !is_ticket(text),
        !leads_to(text, addr),
{
}

/// A node id is read as a key only where, but for the white space around it, it spells that
/// key, and the key is one.
pub proof fn a_node_id_is_read_as_what_it_spells(text: Seq<char>, key: Seq<u8>)
    ensures
        key_of(text) == Some(key) <==> spells(trimmed(text), key) && is_public_key(key),
{
    if spells(trimmed(text), key) && is_public_key(key) {
        a_node_id_spells_one_key(trimmed(text), key, key_of(text).unwrap());
    }
}

/// Beyond ASCII a text is read by its Unicode capitals, whole, without the white space around
/// it.
pub proof fn beyond_ascii_the_capitals_count(text: Seq<char>, bytes: Seq<u8>)
    requires
        !is_ascii_chars(trimmed(text)),
    ensures
        carries(text, bytes) <==> base32(bytes) == encode_utf8(
            crate::text::unicode_upper(trimmed(text)),
        ),
{
}

/// Two addresses hold the same only where the node id and all transport addresses are the
/// same, and an address can be read back where each of its transport addresses can.
pub proof fn addresses_are_told_by_all_they_hold(a: iroh::EndpointAddr, b: iroh::EndpointAddr)
    ensures
        same_contents(a, b) <==> node_key(a) == node_key(b) && addr_transports(a) == addr_transports(
            b,
        ),
        (node_key(a) is Some && forall|t: Seq<u8>| #[trigger]
            addr_transports(a).contains(t) ==> t.len() > 0 && (t[0] == 1 || t[0] == 2 || (addr_read(
                node_key(a)->0 + seq![1u8] + t,
            ) matches Some(back) && addr_transports(back) == set![t]))) ==> is_readable(a),
{
}

/// What stands for an address leads to one that holds the same.
pub proof fn what_stands_for_an_address_leads_to_its_like(text: Seq<char>, addr: iroh::EndpointAddr)
    requires
        stands_for(text, addr),
    ensures
        is_ticket(text),
        forall|read: iroh::EndpointAddr| #[trigger]
            leads_to(text, read) ==> node_key(read) == node_key(addr) && addr_transports(read)
                == addr_transports(addr),
{
    let x = choose|x: Seq<u8>| #[trigger]
        carries(text, x) && (addr_read(x) matches Some(back) && same_contents(back, addr));
    assert forall|read: iroh::EndpointAddr| #[trigger] leads_to(text, read) implies node_key(read)
        == node_key(addr) && addr_transports(read) == addr_transports(addr) by {
        let y = choose|y: Seq<u8>| #[trigger] carries(text, y) && addr_read(y) == Some(read);
        base32_is_injective(x, y);
    }
}

} // verus!
