//! CBOR records.
//!
//! The records of the store are flat: arrays and maps whose items are unsigned integers, byte
//! strings and text strings. Encoding and decoding is the work of the `sk_cbor` crate.
use vstd::prelude::*;
use sk_cbor::reader::read_nested;
use sk_cbor::Value;

verus! {

/// An item of a record.
#[derive(Debug, PartialEq, Eq)]
pub enum Scalar {
    Unsigned(u64),
    ByteString(Vec<u8>),
    TextString(String),
}

/// A record to be encoded: an array, or a map whose keys are unsigned integers.
#[derive(Debug, PartialEq, Eq)]
pub enum Record {
    Items(Vec<Scalar>),
    Entries(Vec<(u64, Scalar)>),
}

/// A decoded record. An item that is no [`Scalar`] stands as `None`.
#[derive(Debug, PartialEq, Eq)]
pub enum Decoded {
    Items(Vec<Option<Scalar>>),
    Entries(Vec<(Option<Scalar>, Option<Scalar>)>),
    Single(Option<Scalar>),
}

/// What an item says.
pub enum ScalarView {
    Unsigned(u64),
    ByteString(Seq<u8>),
    TextString(Seq<char>),
}

/// What a record says.
pub enum RecordView {
    Items(Seq<ScalarView>),
    Entries(Seq<(u64, ScalarView)>),
}

/// What a decoded record says.
pub enum DecodedView {
    Items(Seq<Option<ScalarView>>),
    Entries(Seq<(Option<ScalarView>, Option<ScalarView>)>),
    Single(Option<ScalarView>),
}

impl View for Scalar {
    type V = ScalarView;

    open spec fn view(&self) -> ScalarView {
        match *self {
            Scalar::Unsigned(n) => ScalarView::Unsigned(n),
            Scalar::ByteString(b) => ScalarView::ByteString(b@),
            Scalar::TextString(t) => ScalarView::TextString(t@),
        }
    }
}

/// What an optional item says.
pub open spec fn item_view(item: Option<Scalar>) -> Option<ScalarView> {
    match item {
        Some(scalar) => Some(scalar@),
        None => None,
    }
}

impl Record {
    /// What the entries of a map say.
    pub open spec fn entries_view(entries: Seq<(u64, Scalar)>) -> Seq<(u64, ScalarView)> {
        entries.map_values(|e: (u64, Scalar)| (e.0, e.1@))
    }
}

impl View for Record {
    type V = RecordView;

    open spec fn view(&self) -> RecordView {
        match *self {
            Record::Items(items) => RecordView::Items(items@.map_values(|s: Scalar| s@)),
            Record::Entries(entries) => RecordView::Entries(Record::entries_view(entries@)),
        }
    }
}

impl Decoded {
    /// What the entries of a decoded map say.
    pub open spec fn entries_view(entries: Seq<(Option<Scalar>, Option<Scalar>)>) -> Seq<
        (Option<ScalarView>, Option<ScalarView>),
    > {
        entries.map_values(
            |e: (Option<Scalar>, Option<Scalar>)| (item_view(e.0), item_view(e.1)),
        )
    }
}

impl View for Decoded {
    type V = DecodedView;

    open spec fn view(&self) -> DecodedView {
        match *self {
            Decoded::Items(items) => DecodedView::Items(
                items@.map_values(|i: Option<Scalar>| item_view(i)),
            ),
            Decoded::Entries(entries) => DecodedView::Entries(
                Decoded::entries_view(entries@),
            ),
            Decoded::Single(item) => DecodedView::Single(item_view(item)),
        }
    }
}

/// A record as it looks when it is decoded.
pub open spec fn as_decoded(record: RecordView) -> DecodedView {
    match record {
        RecordView::Items(items) => DecodedView::Items(items.map_values(|s: ScalarView| Some(s))),
        RecordView::Entries(entries) => DecodedView::Entries(
            entries.map_values(|e: (u64, ScalarView)| (Some(ScalarView::Unsigned(e.0)), Some(e.1))),
        ),
    }
}

/// Whether the keys of a map are in strictly ascending order.
pub open spec fn ascending(entries: Seq<(u64, ScalarView)>) -> bool {
    forall|i: int, j: int|
        #![trigger entries[i], entries[j]]
        0 <= i < j < entries.len() ==> entries[i].0 < entries[j].0
}

/// Whether a record is in the form in which it is stored: an array, or a map in key order.
pub open spec fn canonical(record: RecordView) -> bool {
    match record {
        RecordView::Items(_) => true,
        RecordView::Entries(entries) => ascending(entries),
    }
}

/// What `sk_cbor` makes of some bytes, down to a nesting depth, where the largest size is
/// `max_size`; `None` where it reports an error. (An encoded length is cut down to a size before it
/// is looked at.)
pub uninterp spec fn cbor_decoding(data: Seq<u8>, max_nest: i8, max_size: usize) -> Option<
    DecodedView,
>;

/// The bytes that `sk_cbor` encodes a record in; `None` where it reports an error.
pub uninterp spec fn cbor_encoding(record: RecordView) -> Option<Seq<u8>>;

/// Calls `sk_cbor::reader::read_nested`, which decodes one data item and rejects anything that
/// follows it. The result is a function of the bytes, of the nesting limit and of the largest size,
/// and is only named.
#[verifier::external_body]
pub(crate) fn cbor_read(data: &[u8], max_nest: i8) -> (decoded: Option<Decoded>)
    ensures
        (match decoded {
            Some(d) => Some(d@),
            None => None,
        }) == cbor_decoding(data@, max_nest, usize::MAX),
{
    let item = |v| match v {
        Value::Unsigned(n) => Some(Scalar::Unsigned(n)),
        Value::ByteString(b) => Some(Scalar::ByteString(b)),
        Value::TextString(t) => Some(Scalar::TextString(t)),
        _ => None,
    };
    read_nested(data, Some(max_nest)).ok().map(|value| match value {
        Value::Array(a) => Decoded::Items(a.into_iter().map(item).collect()),
        Value::Map(m) => Decoded::Entries(m.into_iter().map(|(k, v)| (item(k), item(v))).collect()),
        other => Decoded::Single(item(other)),
    })
}

/// Calls `sk_cbor::write`, which appends the encoding of a value to a vector. It reports an error
/// only for a map that holds a key twice. A record in canonical form is encoded, and decoding the
/// bytes down to one level or more gives the record back.
#[verifier::external_body]
pub(crate) fn cbor_write(record: Record) -> (data: Option<Vec<u8>>)
    ensures
        (match data {
            Some(d) => Some(d@),
            None => None,
        }) == cbor_encoding(record@),
        canonical(record@) ==> data is Some,
        canonical(record@) ==> forall|max_nest: i8|
            max_nest >= 1 ==> #[trigger] cbor_decoding(data->0@, max_nest, usize::MAX) == Some(
                as_decoded(record@),
            ),
{
    let value = |s| match s {
        Scalar::Unsigned(n) => Value::Unsigned(n),
        Scalar::ByteString(b) => Value::ByteString(b),
        Scalar::TextString(t) => Value::TextString(t),
    };
    let record = match record {
        Record::Items(a) => Value::Array(a.into_iter().map(value).collect()),
        Record::Entries(m) => Value::Map(
            m.into_iter().map(|(k, v)| (Value::Unsigned(k), value(v))).collect(),
        ),
    };
    let mut data = Vec::new();
    sk_cbor::write(record, &mut data).ok().map(|_| data)
}

} // verus!
