//! What an executed message answers: token transfers for the chain to
//! carry out, and attributes that describe what was done.

use vstd::prelude::*;

verus! {

/// One attribute of a reply.
#[derive(Debug, Clone, PartialEq, Eq)]
pub struct Attribute {
    pub key: String,
    pub value: String,
}

/// A call of another contract, with no funds attached: `msg` is the JSON
/// message sent to `contract_addr`.
#[derive(Debug, Clone, PartialEq, Eq)]
pub struct WasmExecute {
    pub contract_addr: String,
    pub msg: Vec<u8>,
}

/// The answer to an executed message.
#[derive(Debug, Clone, PartialEq, Eq)]
pub struct Reply {
    pub messages: Vec<WasmExecute>,
    pub attributes: Vec<Attribute>,
}

/// The mathematical view of a [`Reply`].
pub struct ReplyView {
    pub messages: Seq<(Seq<char>, Seq<u8>)>,
    pub attributes: Seq<(Seq<char>, Seq<char>)>,
}

impl View for Reply {
    type V = ReplyView;

    open spec fn view(&self) -> ReplyView {
        ReplyView {
            messages: self.messages@.map_values(|m: WasmExecute| (m.contract_addr@, m.msg@)),
            attributes: self.attributes@.map_values(|a: Attribute| (a.key@, a.value@)),
        }
    }
}

/// The decimal digit `d`.
pub open spec fn digit(d: nat) -> char {
    (48 + d) as char
}

/// The decimal notation of `n`, without leading zeros.
pub open spec fn decimal(n: nat) -> Seq<char>
    decreases n,
{
    if n < 10 {
        seq![digit(n)]
    } else {
        decimal(n / 10).push(digit(n % 10))
    }
}

/// The JSON encoding of a CW20 `Transfer { recipient, amount }` message.
pub uninterp spec fn cw20_transfer_json(recipient: Seq<char>, amount: u128) -> Seq<u8>;

/// Encodes a CW20 `Transfer { recipient, amount }` message with
/// `cosmwasm_std::to_binary`. The bytes are named, not stated: they are
/// whatever `to_binary` gives for these arguments. Encoding this message
/// does not fail: the serializer's string, struct-variant and field paths
/// all return `Ok`, and `Uint128` serializes as a string.
#[verifier::external_body]
pub(crate) fn cw20_transfer_binary(recipient: &String, amount: u128) -> (r: Result<Vec<u8>, String>)
    ensures
        r is Ok,
        r matches Ok(b) ==> b@ == cw20_transfer_json(recipient@, amount),
{
    #[allow(deprecated)]
    let r = cosmwasm_std::to_binary(
        &cw20::Cw20ExecuteMsg::Transfer {
            recipient: recipient.clone(),
            amount: cosmwasm_std::Uint128::new(amount),
        },
    );
    match r {
        Ok(b) => Ok(b.0),
        Err(e) => Err(e.to_string()),
    }
}

/// The decimal digit `d`, as a string.
fn digit_str(d: u128) -> (s: &'static str)
    requires
        d < 10,
    ensures
        s@ == seq![digit(d as nat)],
{
    proof {
        reveal_strlit("0");
        reveal_strlit("1");
        reveal_strlit("2");
        reveal_strlit("3");
        reveal_strlit("4");
        reveal_strlit("5");
        reveal_strlit("6");
        reveal_strlit("7");
        reveal_strlit("8");
        reveal_strlit("9");
    }
    match d {
        0 => "0",
        1 => "1",
        2 => "2",
        3 => "3",
        4 => "4",
        5 => "5",
        6 => "6",
        7 => "7",
        8 => "8",
        _ => "9",
    }
}

/// Appends the decimal notation of `n` to `s`.
fn push_decimal(s: &mut String, n: u128)
    ensures
        final(s)@ == old(s)@ + decimal(n as nat),
    decreases n,
{
    if n >= 10 {
        push_decimal(s, n / 10);
    }
    s.append(digit_str(n % 10));
    proof {
        if n >= 10 {
            assert(decimal(n as nat) == decimal((n / 10) as nat).push(digit((n % 10) as nat)));
        }
    }
}

/// The decimal notation of an amount, as `cosmwasm_std::Uint128` displays it.
pub fn uint128_to_string(amount: u128) -> (s: String)
    ensures
        s@ == decimal(amount as nat),
{
    let mut s = String::new();
    push_decimal(&mut s, amount);
    s
}

/// An attribute with the given key and value.
pub fn attr(key: &str, value: String) -> (a: Attribute)
    ensures
        a.key@ == key@,
        a.value@ == value@,
{
    Attribute { key: key.to_owned(), value }
}

/// An attribute whose value is the decimal notation of an amount.
pub fn attr_amount(key: &str, amount: u128) -> (a: Attribute)
    ensures
        a.key@ == key@,
        a.value@ == decimal(amount as nat),
{
    attr(key, uint128_to_string(amount))
}

/// A reply with no messages and no attributes.
pub open spec fn empty_reply() -> ReplyView {
    ReplyView { messages: seq![], attributes: seq![] }
}

impl Reply {
    /// A reply with no messages and no attributes.
    pub fn new() -> (r: Reply)
        ensures
            r@ == empty_reply(),
    {
        let r = Reply { messages: Vec::new(), attributes: Vec::new() };
        assert(r@.messages =~= Seq::<(Seq<char>, Seq<u8>)>::empty());
        assert(r@.attributes =~= Seq::<(Seq<char>, Seq<char>)>::empty());
        r
    }
}

} // verus!
