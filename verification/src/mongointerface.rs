//! The computations behind talking to the database: its address, and the
//! rules read from its configuration collection.
use vstd::prelude::*;
use crate::config::{Config, ConfigError, ParserConfig, RecordConfig};
use crate::logreader::push_char;
use crate::pattern::regex_accepts;

verus! {

/// The decimal digit for `d` (below ten).
pub open spec fn digit_char(d: nat) -> char {
    (48 + d) as char
}

/// The decimal notation of `n`, without leading zeros.
pub open spec fn decimal(n: nat) -> Seq<char>
    decreases n,
{
    if n < 10 {
        seq![digit_char(n)]
    } else {
        decimal(n / 10).push(digit_char(n % 10))
    }
}

fn push_decimal(s: &mut String, n: u16)
    ensures
        final(s)@ == old(s)@ + decimal(n as nat),
    decreases n,
{
    if n >= 10 {
        push_decimal(s, n / 10);
    }
    let d: u8 = (n % 10) as u8;
    push_char(s, (48u8 + d) as char);
    assert(final(s)@ =~= old(s)@ + decimal(n as nat));
}

/// The connection string of the database server at `host` and `port`:
/// `mongodb://host:port`, the port in decimal.
pub fn mongo_uri(host: &str, port: u16) -> (uri: String)
    ensures
        uri@ == "mongodb://"@ + host@ + ":"@ + decimal(port as nat),
        ({
            let start = ("mongodb://"@ + host@ + ":"@).len() as int;
            &&& start < uri@.len()
            &&& uri@[start - 1] == ':'
            &&& forall|i: int| start <= i < uri@.len() ==> '0' <= #[trigger] uri@[i] <= '9'
            &&& digits_value(uri@.subrange(start, uri@.len() as int)) == port
        }),
{
    let mut uri = String::from_str("mongodb://");
    uri.append(host);
    uri.append(":");
    push_decimal(&mut uri, port);
    proof {
        address_ends_with_port(host@, port);
    }
    uri
}

/// The text of a field of a configuration document: empty when the field
/// is absent.
pub open spec fn field_text(field: Option<String>) -> Seq<char> {
    match field {
        Some(s) => s@,
        None => Seq::empty(),
    }
}

fn field_or_empty(field: Option<String>) -> (s: String)
    ensures
        s@ == field_text(field),
        field matches Some(f) ==> s@ == f@,
        field is None ==> s@.len() == 0,
{
    match field {
        Some(s) => s,
        None => String::new(),
    }
}

/// Sets up the rule that a configuration document describes, given its
/// `filename`, `regex`, `key` and `collectionName` fields; an absent field
/// counts as empty text.
pub fn config_from_fields(
    filename: Option<String>,
    regex: Option<String>,
    key: Option<String>,
    collection_name: Option<String>,
) -> (r: Result<(RecordConfig, ParserConfig), ConfigError>)
    ensures
        r is Ok <==> regex_accepts(field_text(regex)),
        r matches Ok((rec, parse)) ==> {
            &&& rec.base_config == parse.base_config
            &&& rec.base_config.filename@ == field_text(filename)
            &&& rec.base_config.key@ == field_text(key)
            &&& rec.base_config.collectionName@ == field_text(collection_name)
            &&& parse.regex@ == field_text(regex)
            &&& rec.channel_rx.channel() == parse.channel_tx.channel()
            &&& rec.channel_rx.received() == Seq::<Seq<char>>::empty()
            &&& !rec.channel_rx.ran_dry()
            &&& parse.channel_tx.sent() == Seq::<Seq<char>>::empty()
        },
        regex matches Some(t) ==> (r is Ok <==> regex_accepts(t@)),
        regex is None ==> (r is Ok <==> regex_accepts(Seq::<char>::empty())),
        r matches Ok((rec, parse)) ==> {
            &&& (filename matches Some(f) ==> rec.base_config.filename@ == f@)
            &&& (filename is None ==> rec.base_config.filename@.len() == 0)
            &&& (key matches Some(k) ==> rec.base_config.key@ == k@)
            &&& (key is None ==> rec.base_config.key@.len() == 0)
            &&& (collection_name matches Some(c) ==> rec.base_config.collectionName@ == c@)
            &&& (collection_name is None ==> rec.base_config.collectionName@.len() == 0)
            &&& (regex matches Some(t) ==> parse.regex@ == t@)
            &&& (regex is None ==> parse.regex@.len() == 0)
        },
{
    Config::new(
        field_or_empty(regex),
        field_or_empty(filename),
        field_or_empty(key),
        field_or_empty(collection_name),
    )
}

/// The number that a text of decimal digits stands for.
pub open spec fn digits_value(digits: Seq<char>) -> int
    decreases digits.len(),
{
    if digits.len() == 0 {
        0
    } else {
        digits_value(digits.drop_last()) * 10 + (digits.last() as int - '0' as int)
    }
}

/// The decimal notation of `n` is a non-empty text of the digits `0` to `9`
/// that reads back as `n`.
pub proof fn decimal_reads_back(n: nat)
    ensures
        decimal(n).len() > 0,
        forall|i: int| 0 <= i < decimal(n).len() ==> '0' <= #[trigger] decimal(n)[i] <= '9',
        digits_value(decimal(n)) == n,
    decreases n,
{
    if n < 10 {
        assert(decimal(n) == seq![digit_char(n)]);
        assert(seq![digit_char(n)].drop_last() =~= Seq::<char>::empty());
        assert(digit_char(n) as int == 48 + n);
        assert(digits_value(seq![digit_char(n)]) == digits_value(Seq::<char>::empty()) * 10 + (digit_char(n) as int - '0' as int));
    } else {
        decimal_reads_back(n / 10);
        let d = decimal(n / 10);
        assert(decimal(n) == d.push(digit_char(n % 10)));
        assert(d.push(digit_char(n % 10)).drop_last() =~= d);
        assert((n / 10) * 10 + n % 10 == n) by (nonlinear_arith);
        assert(digit_char(n % 10) as int == 48 + n % 10);
        assert(digits_value(d.push(digit_char(n % 10))) == digits_value(d) * 10 + (digit_char(n % 10) as int - '0' as int));
    }
}

/// In the database address, the text after the last `:` is the port's
/// decimal notation: digits only, reading back as the port.
pub proof fn address_ends_with_port(host: Seq<char>, port: u16)
    ensures
        ({
            let address = "mongodb://"@ + host + ":"@ + decimal(port as nat);
            let start = address.len() - decimal(port as nat).len();
            &&& 0 < start < address.len()
            &&& address[start - 1] == ':'
            &&& forall|i: int| start <= i < address.len() ==> '0' <= #[trigger] address[i] <= '9'
            &&& digits_value(address.subrange(start, address.len() as int)) == port
        }),
{
    reveal_strlit(":");
    decimal_reads_back(port as nat);
    let d = decimal(port as nat);
    let head = "mongodb://"@ + host + ":"@;
    let address = head + d;
    assert(head.last() == ':');
    assert(address.subrange(head.len() as int, address.len() as int) =~= d);
    assert forall|i: int| head.len() <= i < address.len() implies '0' <= #[trigger] address[i] <= '9' by {
        assert(address[i] == d[i - head.len()]);
    }
}

/// A field of a configuration document is used as it is when present, and
/// as empty text when absent.
pub proof fn present_fields_are_taken_whole(field: Option<String>)
    ensures
        field matches Some(s) ==> field_text(field) == s@,
        field is None ==> field_text(field).len() == 0,
{
}

} // verus!
