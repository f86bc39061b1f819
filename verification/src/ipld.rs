//! The IPLD data model, and the DAG-CBOR bytes that it is kept as.
//!
//! `libipld` holds the data and writes and reads the bytes. The functions here take its values
//! apart and put them together one level at a time.

use vstd::prelude::*;

use libipld::cbor::DagCborCodec;
use libipld::codec::Codec;
use libipld::Ipld;

verus! {

/// `libipld::Ipld`, which is taken apart by `shape` and put together by `build`.
#[verifier::external_type_specification]
#[verifier::external_body]
pub struct ExIpld(libipld::Ipld);

/// `anyhow::Error`, which `libipld` reports.
#[verifier::external_type_specification]
#[verifier::external_body]
pub struct ExError(anyhow::Error);

/// What an `Ipld` holds.
pub enum IpldView {
    Null,
    Bool(bool),
    Integer(int),
    Text(Seq<char>),
    Bytes(Seq<u8>),
    List(Seq<IpldView>),
    Fields(Map<Seq<char>, IpldView>),
    /// A link or a floating-point number, which nothing here looks into.
    Other(libipld::Ipld),
}

/// What an `Ipld` holds.
pub uninterp spec fn ipld_view(ipld: libipld::Ipld) -> IpldView;

/// What the values in a list hold.
pub open spec fn list_views(list: Seq<Ipld>) -> Seq<IpldView> {
    list.map_values(|item: Ipld| ipld_view(item))
}

/// The map that a list of fields stands for.
pub open spec fn fields_of(pairs: Seq<(Seq<char>, IpldView)>) -> Map<Seq<char>, IpldView>
    decreases pairs.len(),
{
    if pairs.len() == 0 {
        Map::empty()
    } else {
        fields_of(pairs.drop_last()).insert(pairs.last().0, pairs.last().1)
    }
}

/// Whether no name occurs twice in a list of fields.
pub open spec fn distinct_names(pairs: Seq<(Seq<char>, IpldView)>) -> bool {
    forall|i: int, j: int|
        0 <= i < j < pairs.len() ==> (#[trigger] pairs[i]).0 != (#[trigger] pairs[j]).0
}

/// One level of an `Ipld`, seen in place.
pub enum Shape<'a> {
    Null,
    Bool(bool),
    Integer(i128),
    Text(&'a String),
    Bytes(&'a Vec<u8>),
    List(&'a Vec<Ipld>),
    Fields(Vec<(&'a String, &'a Ipld)>),
    Other,
}

/// The fields of a value that is seen in place.
pub open spec fn seen_fields(pairs: Seq<(&String, &Ipld)>) -> Seq<(Seq<char>, IpldView)> {
    pairs.map_values(|pair: (&String, &Ipld)| (pair.0@, ipld_view(*pair.1)))
}

/// Tells the variants of `libipld::Ipld` apart, and gives what each one holds.
///
/// Trusted: the value holds what the shape says. No name occurs twice among the fields, as they
/// come from a map.
#[verifier::external_body]
pub(crate) fn shape(ipld: &Ipld) -> (shape: Shape<'_>)
    ensures
        match shape {
            Shape::Null => ipld_view(*ipld) == IpldView::Null,
            Shape::Bool(value) => ipld_view(*ipld) == IpldView::Bool(value),
            Shape::Integer(value) => ipld_view(*ipld) == IpldView::Integer(value as int),
            Shape::Text(text) => ipld_view(*ipld) == IpldView::Text(text@),
            Shape::Bytes(bytes) => ipld_view(*ipld) == IpldView::Bytes(bytes@),
            Shape::List(list) => ipld_view(*ipld) == IpldView::List(list_views(list@)),
            Shape::Fields(pairs) => distinct_names(seen_fields(pairs@)) && ipld_view(*ipld)
                == IpldView::Fields(fields_of(seen_fields(pairs@))),
            Shape::Other => ipld_view(*ipld) == IpldView::Other(*ipld),
        },
{
    match ipld {
        Ipld::Null => Shape::Null,
        Ipld::Bool(value) => Shape::Bool(*value),
        Ipld::Integer(value) => Shape::Integer(*value),
        Ipld::String(text) => Shape::Text(text),
        Ipld::Bytes(bytes) => Shape::Bytes(bytes),
        Ipld::List(list) => Shape::List(list),
        Ipld::StringMap(map) => Shape::Fields(map.iter().collect()),
        _ => Shape::Other,
    }
}

/// One level of an `Ipld` that is to be made.
pub enum Parts {
    Null,
    Integer(i128),
    Text(String),
    Bytes(Vec<u8>),
    List(Vec<Ipld>),
    Fields(Vec<(String, Ipld)>),
}

/// The fields of a value that is to be made.
pub open spec fn given_fields(pairs: Seq<(String, Ipld)>) -> Seq<(Seq<char>, IpldView)> {
    pairs.map_values(|pair: (String, Ipld)| (pair.0@, ipld_view(pair.1)))
}

/// Makes a `libipld::Ipld` of the variant that the parts are for.
///
/// Trusted: the value holds the parts. The names of fields have to be distinct, as a map keeps
/// one value for each.
#[verifier::external_body]
pub(crate) fn build(parts: Parts) -> (ipld: Ipld)
    requires
        parts matches Parts::Fields(pairs) ==> distinct_names(given_fields(pairs@)),
    ensures
        ipld_view(ipld) == (match parts {
            Parts::Null => IpldView::Null,
            Parts::Integer(value) => IpldView::Integer(value as int),
            Parts::Text(text) => IpldView::Text(text@),
            Parts::Bytes(bytes) => IpldView::Bytes(bytes@),
            Parts::List(list) => IpldView::List(list_views(list@)),
            Parts::Fields(pairs) => IpldView::Fields(fields_of(given_fields(pairs@))),
        }),
{
    match parts {
        Parts::Null => Ipld::Null,
        Parts::Integer(value) => Ipld::Integer(value),
        Parts::Text(text) => Ipld::String(text),
        Parts::Bytes(bytes) => Ipld::Bytes(bytes),
        Parts::List(list) => Ipld::List(list),
        Parts::Fields(pairs) => Ipld::StringMap(pairs.into_iter().collect()),
    }
}

/// The text that stands for a value in diagnostics.
pub uninterp spec fn ipld_debug(value: IpldView) -> Seq<char>;

/// Writes a value with the `Debug` of `libipld::Ipld`.
///
/// Trusted: the text depends on the value alone.
#[verifier::external_body]
pub(crate) fn describe(ipld: &Ipld) -> (text: String)
    ensures
        text@ == ipld_debug(ipld_view(*ipld)),
{
    format!("{:?}", ipld)
}

/// Whether a value is made of what DAG-CBOR writes without loss, with at most `depth` lists and
/// maps in one another. Numbers are those of 64 bits and a sign.
pub open spec fn is_plain(value: IpldView, depth: nat) -> bool
    decreases depth,
{
    match value {
        IpldView::Null | IpldView::Bool(_) | IpldView::Text(_) | IpldView::Bytes(_) => true,
        IpldView::Integer(number) => -0x1_0000_0000_0000_0000 <= number < 0x1_0000_0000_0000_0000,
        IpldView::List(list) => depth > 0 && forall|i: int|
            0 <= i < list.len() ==> is_plain(#[trigger] list[i], (depth - 1) as nat),
        IpldView::Fields(fields) => depth > 0 && forall|name: Seq<char>| #[trigger]
            fields.contains_key(name) ==> is_plain(fields[name], (depth - 1) as nat),
        IpldView::Other(_) => false,
    }
}

/// Whether a value is made of what DAG-CBOR writes without loss.
pub open spec fn is_lossless(value: IpldView) -> bool {
    exists|depth: nat| is_plain(value, depth)
}

/// The bytes that DAG-CBOR writes a value as, or `None` where it cannot.
pub uninterp spec fn cbor_written(value: IpldView) -> Option<Seq<u8>>;

/// The value that DAG-CBOR reads from bytes, or `None` where they are none.
pub uninterp spec fn cbor_read(bytes: Seq<u8>) -> Option<IpldView>;

/// Writes a value with `DagCborCodec`'s `encode`.
///
/// Trusted: the bytes depend on the value alone. A value without what would be lost can be
/// written, what is written announces no more than it holds, and the value is read from it again.
#[verifier::external_body]
pub(crate) fn encode(ipld: &Ipld) -> (bytes: Result<Vec<u8>, anyhow::Error>)
    ensures
        match bytes {
            Ok(bytes) => cbor_written(ipld_view(*ipld)) == Some(bytes@),
            Err(_) => cbor_written(ipld_view(*ipld)) is None,
        },
        is_lossless(ipld_view(*ipld)) ==> {
            &&& bytes matches Ok(bytes)
            &&& crate::framing::fits(bytes@)
            &&& cbor_read(bytes@) == Some(ipld_view(*ipld))
        },
{
    DagCborCodec.encode(ipld)
}

/// Reads a value with `DagCborCodec`'s `decode`.
///
/// Trusted: whether there is a value, and which, depends on the bytes alone. Bytes that announce
/// more than they hold are left out: it would try to make room for what is announced. It calls
/// itself for each list and map in another, as deep as the stack allows.
#[verifier::external_body]
pub(crate) fn decode(bytes: &[u8]) -> (ipld: Result<Ipld, anyhow::Error>)
    requires
        crate::framing::fits(bytes@),
    ensures
        match ipld {
            Ok(ipld) => cbor_read(bytes@) == Some(ipld_view(ipld)),
            Err(_) => cbor_read(bytes@) is None,
        },
{
    DagCborCodec.decode(bytes)
}

} // verus!
