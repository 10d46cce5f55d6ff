//! How credentials and lists of RP IDs are laid out in storage.
//!
//! A credential is a CBOR map. Each field has a tag of its own, which is its key in the map. The
//! tag of a field that is no longer used stays reserved: 5 stood for a per-credential secret.
use vstd::prelude::*;
use vstd::slice::slice_to_vec;
use crate::bytes::array_at;
use crate::cbor::{cbor_read, cbor_write, Decoded, Record, Scalar};
use crate::data_formats::{
    CredentialProtectionPolicy, PublicKeyCredentialSource, PublicKeyCredentialType,
};
use crate::status_code::Ctap2StatusCode;

verus! {

use crate::cbor::{
    as_decoded, ascending, cbor_decoding, cbor_encoding, item_view, DecodedView,
    RecordView, ScalarView,
};
use crate::data_formats::{text_view, CredentialView};
use crate::names::texts;

/// How deep the items of a stored record may be nested.
pub const MAX_NESTING: i8 = 4;

/// Size of a private key.
pub const PRIVATE_KEY_SIZE: usize = 32;

pub const TAG_CREDENTIAL_ID: u64 = 0;

pub const TAG_PRIVATE_KEY: u64 = 1;

pub const TAG_RP_ID: u64 = 2;

pub const TAG_USER_HANDLE: u64 = 3;

pub const TAG_USER_DISPLAY_NAME: u64 = 4;

pub const TAG_CRED_PROTECT_POLICY: u64 = 6;

pub const TAG_CREATION_ORDER: u64 = 7;

pub const TAG_USER_NAME: u64 = 8;

pub const TAG_USER_ICON: u64 = 9;

/// The entries of a decoded map.
pub type Entries = Seq<(Option<ScalarView>, Option<ScalarView>)>;

/// The item under the first key that is the unsigned integer `tag`. The outer `None` says that
/// there is no such key, the inner one that the item is no scalar.
pub open spec fn field(entries: Entries, tag: u64) -> Option<Option<ScalarView>>
    decreases entries.len(),
{
    if entries.len() == 0 {
        None
    } else if field(entries.drop_last(), tag) is Some {
        field(entries.drop_last(), tag)
    } else if entries.last().0 == Some(ScalarView::Unsigned(tag)) {
        Some(entries.last().1)
    } else {
        None
    }
}

/// The byte string under `tag`, if there is one.
pub open spec fn byte_field(entries: Entries, tag: u64) -> Option<Seq<u8>> {
    match field(entries, tag) {
        Some(Some(ScalarView::ByteString(b))) => Some(b),
        _ => None,
    }
}

/// The text string under `tag`, if there is one.
pub open spec fn text_field(entries: Entries, tag: u64) -> Option<Seq<char>> {
    match field(entries, tag) {
        Some(Some(ScalarView::TextString(t))) => Some(t),
        _ => None,
    }
}

/// The text string under `tag`, which may be absent; `None` if something else stands there.
pub open spec fn optional_text_field(entries: Entries, tag: u64) -> Option<Option<Seq<char>>> {
    match field(entries, tag) {
        None => Some(None),
        Some(Some(ScalarView::TextString(t))) => Some(Some(t)),
        Some(_) => None,
    }
}

/// The number that stands for a protection policy.
pub open spec fn policy_number(policy: CredentialProtectionPolicy) -> u64 {
    match policy {
        CredentialProtectionPolicy::UserVerificationOptional => 1,
        CredentialProtectionPolicy::UserVerificationOptionalWithCredentialIdList => 2,
        CredentialProtectionPolicy::UserVerificationRequired => 3,
    }
}

/// The protection policy, which may be absent; `None` if no policy's number stands there.
pub open spec fn policy_field(entries: Entries) -> Option<Option<CredentialProtectionPolicy>> {
    match field(entries, TAG_CRED_PROTECT_POLICY) {
        None => Some(None),
        Some(Some(ScalarView::Unsigned(n))) => if n == 1 {
            Some(Some(CredentialProtectionPolicy::UserVerificationOptional))
        } else if n == 2 {
            Some(Some(CredentialProtectionPolicy::UserVerificationOptionalWithCredentialIdList))
        } else if n == 3 {
            Some(Some(CredentialProtectionPolicy::UserVerificationRequired))
        } else {
            None
        },
        Some(_) => None,
    }
}

/// The creation order, which is 0 if it is absent; `None` if something else stands there.
pub open spec fn order_field(entries: Entries) -> Option<u64> {
    match field(entries, TAG_CREATION_ORDER) {
        None => Some(0),
        Some(Some(ScalarView::Unsigned(n))) => Some(n),
        Some(_) => None,
    }
}

/// Whether the entries of a map make up a credential.
pub open spec fn is_credential(entries: Entries) -> bool {
    &&& byte_field(entries, TAG_CREDENTIAL_ID) is Some
    &&& byte_field(entries, TAG_PRIVATE_KEY) is Some
    &&& byte_field(entries, TAG_PRIVATE_KEY)->0.len() == PRIVATE_KEY_SIZE
    &&& text_field(entries, TAG_RP_ID) is Some
    &&& byte_field(entries, TAG_USER_HANDLE) is Some
    &&& optional_text_field(entries, TAG_USER_DISPLAY_NAME) is Some
    &&& policy_field(entries) is Some
    &&& order_field(entries) is Some
    &&& optional_text_field(entries, TAG_USER_NAME) is Some
    &&& optional_text_field(entries, TAG_USER_ICON) is Some
}

/// The credential that the entries of a map make up.
pub open spec fn credential_of(entries: Entries) -> CredentialView {
    CredentialView {
        key_type: PublicKeyCredentialType::PublicKey,
        credential_id: byte_field(entries, TAG_CREDENTIAL_ID)->0,
        private_key: byte_field(entries, TAG_PRIVATE_KEY)->0,
        rp_id: text_field(entries, TAG_RP_ID)->0,
        user_handle: byte_field(entries, TAG_USER_HANDLE)->0,
        user_display_name: optional_text_field(entries, TAG_USER_DISPLAY_NAME)->0,
        cred_protect_policy: policy_field(entries)->0,
        creation_order: order_field(entries)->0,
        user_name: optional_text_field(entries, TAG_USER_NAME)->0,
        user_icon: optional_text_field(entries, TAG_USER_ICON)->0,
    }
}

/// The credential that a decoded record stands for, if it stands for one.
pub open spec fn decoded_credential(decoded: Option<DecodedView>) -> Option<CredentialView> {
    match decoded {
        Some(DecodedView::Entries(entries)) => if is_credential(entries) {
            Some(credential_of(entries))
        } else {
            None
        },
        _ => None,
    }
}

/// The credential that stored bytes stand for, if they stand for one.
pub open spec fn stored_credential(data: Seq<u8>) -> Option<CredentialView> {
    decoded_credential(cbor_decoding(data, MAX_NESTING, usize::MAX))
}

/// Looks up a field of a decoded map.
fn find_field(entries: &Vec<(Option<Scalar>, Option<Scalar>)>, tag: u64) -> (found: Option<
    &Option<Scalar>,
>)
    ensures
        (match found {
            Some(item) => Some(item_view(*item)),
            None => None,
        }) == field(Decoded::entries_view(entries@), tag),
{
    let ghost view = Decoded::entries_view(entries@);
    let mut i: usize = 0;
    while i < entries.len()
        invariant
            i <= entries@.len(),
            view == Decoded::entries_view(entries@),
            field(view.take(i as int), tag) is None,
        decreases entries@.len() - i,
    {
        proof {
            lemma_field_of_prefix(view, i + 1, tag);
            assert(view.take(i + 1).drop_last() =~= view.take(i as int));
            assert(view.take(i + 1).last() == view[i as int]);
        }
        match &entries[i].0 {
            Some(Scalar::Unsigned(n)) => {
                if *n == tag {
                    return Some(&entries[i].1);
                }
            },
            _ => {},
        }
        i = i + 1;
    }
    assert(view.take(i as int) =~= view);
    None
}

/// A field that is found in the first entries of a map is found in the map.
proof fn lemma_field_of_prefix(entries: Entries, n: int, tag: u64)
    requires
        0 <= n <= entries.len(),
    ensures
        field(entries.take(n), tag) is Some ==> field(entries, tag) == field(entries.take(n), tag),
    decreases entries.len() - n,
{
    if n < entries.len() {
        lemma_field_of_prefix(entries, n + 1, tag);
        assert(entries.take(n + 1).drop_last() =~= entries.take(n));
    } else {
        assert(entries.take(n) =~= entries);
    }
}

fn find_bytes(entries: &Vec<(Option<Scalar>, Option<Scalar>)>, tag: u64) -> (found: Option<Vec<u8>>)
    ensures
        (match found {
            Some(b) => Some(b@),
            None => None,
        }) == byte_field(Decoded::entries_view(entries@), tag),
{
    match find_field(entries, tag) {
        Some(Some(Scalar::ByteString(b))) => Some(slice_to_vec(b.as_slice())),
        _ => None,
    }
}

fn find_text(entries: &Vec<(Option<Scalar>, Option<Scalar>)>, tag: u64) -> (found: Option<String>)
    ensures
        text_view(found) == text_field(Decoded::entries_view(entries@), tag),
{
    match find_field(entries, tag) {
        Some(Some(Scalar::TextString(t))) => Some(t.clone()),
        _ => None,
    }
}

fn find_optional_text(entries: &Vec<(Option<Scalar>, Option<Scalar>)>, tag: u64) -> (found: Option<
    Option<String>,
>)
    ensures
        (match found {
            Some(t) => Some(text_view(t)),
            None => None,
        }) == optional_text_field(Decoded::entries_view(entries@), tag),
{
    match find_field(entries, tag) {
        None => Some(None),
        Some(Some(Scalar::TextString(t))) => Some(Some(t.clone())),
        Some(_) => None,
    }
}

fn find_policy(entries: &Vec<(Option<Scalar>, Option<Scalar>)>) -> (found: Option<
    Option<CredentialProtectionPolicy>,
>)
    ensures
        found == policy_field(Decoded::entries_view(entries@)),
{
    match find_field(entries, TAG_CRED_PROTECT_POLICY) {
        None => Some(None),
        Some(Some(Scalar::Unsigned(n))) => match *n {
            1 => Some(Some(CredentialProtectionPolicy::UserVerificationOptional)),
            2 => Some(
                Some(CredentialProtectionPolicy::UserVerificationOptionalWithCredentialIdList),
            ),
            3 => Some(Some(CredentialProtectionPolicy::UserVerificationRequired)),
            _ => None,
        },
        Some(_) => None,
    }
}

fn find_order(entries: &Vec<(Option<Scalar>, Option<Scalar>)>) -> (found: Option<u64>)
    ensures
        found == order_field(Decoded::entries_view(entries@)),
{
    match find_field(entries, TAG_CREATION_ORDER) {
        None => Some(0),
        Some(Some(Scalar::Unsigned(n))) => Some(*n),
        Some(_) => None,
    }
}

/// What a record or its absence says.
pub open spec fn decoded_view(decoded: Option<Decoded>) -> Option<DecodedView> {
    match decoded {
        Some(d) => Some(d@),
        None => None,
    }
}

/// What a credential or its absence says.
pub open spec fn credential_view(credential: Option<PublicKeyCredentialSource>) -> Option<
    CredentialView,
> {
    match credential {
        Some(c) => Some(c@),
        None => None,
    }
}

/// The credential that a decoded record stands for, if it stands for one.
pub fn credential_from_decoded(decoded: Option<Decoded>) -> (credential: Option<
    PublicKeyCredentialSource,
>)
    ensures
        credential_view(credential) == decoded_credential(decoded_view(decoded)),
{
    let entries = match decoded {
        Some(Decoded::Entries(entries)) => entries,
        _ => {
            return None;
        },
    };
    let credential_id = find_bytes(&entries, TAG_CREDENTIAL_ID)?;
    let private_key = find_bytes(&entries, TAG_PRIVATE_KEY)?;
    if private_key.len() != PRIVATE_KEY_SIZE {
        return None;
    }
    let private_key: [u8; 32] = array_at(private_key.as_slice(), 0);
    let rp_id = find_text(&entries, TAG_RP_ID)?;
    let user_handle = find_bytes(&entries, TAG_USER_HANDLE)?;
    let user_display_name = find_optional_text(&entries, TAG_USER_DISPLAY_NAME)?;
    let cred_protect_policy = find_policy(&entries)?;
    let creation_order: u64 = find_order(&entries)?;
    let user_name = find_optional_text(&entries, TAG_USER_NAME)?;
    let user_icon = find_optional_text(&entries, TAG_USER_ICON)?;
    let credential = PublicKeyCredentialSource {
        key_type: PublicKeyCredentialType::PublicKey,
        credential_id,
        private_key,
        rp_id,
        user_handle,
        user_display_name,
        cred_protect_policy,
        creation_order,
        user_name,
        user_icon,
    };
    assert(credential@ =~= credential_of(Decoded::entries_view(entries@)));
    Some(credential)
}

/// Deserializes a credential from storage representation.
pub fn deserialize_credential(data: &[u8]) -> (credential: Option<PublicKeyCredentialSource>)
    ensures
        credential_view(credential) == stored_credential(data@),
{
    credential_from_decoded(cbor_read(data, MAX_NESTING))
}

/// Adds a field to a map, or leaves the map as it is where the field is absent.
pub open spec fn with_field(
    entries: Seq<(u64, ScalarView)>,
    tag: u64,
    item: Option<ScalarView>,
) -> Seq<(u64, ScalarView)> {
    match item {
        Some(scalar) => entries.push((tag, scalar)),
        None => entries,
    }
}

/// An optional text string as an optional item.
pub open spec fn text_item(text: Option<Seq<char>>) -> Option<ScalarView> {
    match text {
        Some(t) => Some(ScalarView::TextString(t)),
        None => None,
    }
}

/// An optional protection policy as an optional item.
pub open spec fn policy_item(policy: Option<CredentialProtectionPolicy>) -> Option<ScalarView> {
    match policy {
        Some(p) => Some(ScalarView::Unsigned(policy_number(p))),
        None => None,
    }
}

/// The entries of the map that a credential is stored as.
pub open spec fn credential_entries(c: CredentialView) -> Seq<(u64, ScalarView)> {
    let e = Seq::<(u64, ScalarView)>::empty();
    let e = with_field(e, TAG_CREDENTIAL_ID, Some(ScalarView::ByteString(c.credential_id)));
    let e = with_field(e, TAG_PRIVATE_KEY, Some(ScalarView::ByteString(c.private_key)));
    let e = with_field(e, TAG_RP_ID, Some(ScalarView::TextString(c.rp_id)));
    let e = with_field(e, TAG_USER_HANDLE, Some(ScalarView::ByteString(c.user_handle)));
    let e = with_field(e, TAG_USER_DISPLAY_NAME, text_item(c.user_display_name));
    let e = with_field(e, TAG_CRED_PROTECT_POLICY, policy_item(c.cred_protect_policy));
    let e = with_field(e, TAG_CREATION_ORDER, Some(ScalarView::Unsigned(c.creation_order)));
    let e = with_field(e, TAG_USER_NAME, text_item(c.user_name));
    with_field(e, TAG_USER_ICON, text_item(c.user_icon))
}

/// The record that a credential is stored as.
pub open spec fn credential_record(c: CredentialView) -> RecordView {
    RecordView::Entries(credential_entries(c))
}

/// The bytes that a credential is stored as.
pub open spec fn credential_bytes(c: CredentialView) -> Seq<u8> {
    cbor_encoding(credential_record(c))->0
}

/// Whether all tags of a map are below `tag`.
spec fn tags_below(entries: Seq<(u64, ScalarView)>, tag: u64) -> bool {
    forall|i: int| 0 <= i < entries.len() ==> (#[trigger] entries[i]).0 < tag
}

/// The entries of a map as they look when they are decoded.
spec fn decoded_entries(entries: Seq<(u64, ScalarView)>) -> Entries {
    entries.map_values(|e: (u64, ScalarView)| (Some(ScalarView::Unsigned(e.0)), Some(e.1)))
}

/// Adding a field with the highest tag keeps a map in order, and adds that field and no other.
proof fn lemma_with_field(
    entries: Seq<(u64, ScalarView)>,
    tag: u64,
    item: Option<ScalarView>,
    next: u64,
)
    requires
        ascending(entries),
        tags_below(entries, tag),
        tag < next,
    ensures
        ascending(with_field(entries, tag, item)),
        tags_below(with_field(entries, tag, item), next),
        forall|t: u64|
            t != tag ==> #[trigger] field(decoded_entries(with_field(entries, tag, item)), t)
                == field(decoded_entries(entries), t),
        field(decoded_entries(with_field(entries, tag, item)), tag) == (match item {
            Some(scalar) => Some(Some(scalar)),
            None => None,
        }),
{
    let longer = with_field(entries, tag, item);
    lemma_absent_field(entries, tag);
    if item is Some {
        assert(decoded_entries(longer).drop_last() =~= decoded_entries(entries));
        assert(decoded_entries(longer).last() == (Some(ScalarView::Unsigned(tag)), item));
    }
}

/// A tag above all tags of a map is not found in it.
proof fn lemma_absent_field(entries: Seq<(u64, ScalarView)>, tag: u64)
    requires
        tags_below(entries, tag),
    ensures
        field(decoded_entries(entries), tag) is None,
    decreases entries.len(),
{
    if entries.len() > 0 {
        assert(tags_below(entries.drop_last(), tag));
        assert(decoded_entries(entries).drop_last() =~= decoded_entries(entries.drop_last()));
        lemma_absent_field(entries.drop_last(), tag);
        assert(decoded_entries(entries).last().0 == Some(
            ScalarView::Unsigned(entries[entries.len() - 1].0),
        ));
    }
}

/// The map of a credential is in order, and reading it gives the credential.
proof fn lemma_credential_entries(c: CredentialView)
    requires
        c.private_key.len() == PRIVATE_KEY_SIZE,
    ensures
        ascending(credential_entries(c)),
        decoded_credential(Some(as_decoded(credential_record(c)))) == Some(c),
{
    let e0 = Seq::<(u64, ScalarView)>::empty();
    let i0 = Some(ScalarView::ByteString(c.credential_id));
    lemma_with_field(e0, TAG_CREDENTIAL_ID, i0, TAG_PRIVATE_KEY);
    let e1 = with_field(e0, TAG_CREDENTIAL_ID, i0);
    let i1 = Some(ScalarView::ByteString(c.private_key));
    lemma_with_field(e1, TAG_PRIVATE_KEY, i1, TAG_RP_ID);
    let e2 = with_field(e1, TAG_PRIVATE_KEY, i1);
    let i2 = Some(ScalarView::TextString(c.rp_id));
    lemma_with_field(e2, TAG_RP_ID, i2, TAG_USER_HANDLE);
    let e3 = with_field(e2, TAG_RP_ID, i2);
    let i3 = Some(ScalarView::ByteString(c.user_handle));
    lemma_with_field(e3, TAG_USER_HANDLE, i3, TAG_USER_DISPLAY_NAME);
    let e4 = with_field(e3, TAG_USER_HANDLE, i3);
    let i4 = text_item(c.user_display_name);
    lemma_with_field(e4, TAG_USER_DISPLAY_NAME, i4, TAG_CRED_PROTECT_POLICY);
    let e5 = with_field(e4, TAG_USER_DISPLAY_NAME, i4);
    let i5 = policy_item(c.cred_protect_policy);
    lemma_with_field(e5, TAG_CRED_PROTECT_POLICY, i5, TAG_CREATION_ORDER);
    let e6 = with_field(e5, TAG_CRED_PROTECT_POLICY, i5);
    let i6 = Some(ScalarView::Unsigned(c.creation_order));
    lemma_with_field(e6, TAG_CREATION_ORDER, i6, TAG_USER_NAME);
    let e7 = with_field(e6, TAG_CREATION_ORDER, i6);
    let i7 = text_item(c.user_name);
    lemma_with_field(e7, TAG_USER_NAME, i7, TAG_USER_ICON);
    let e8 = with_field(e7, TAG_USER_NAME, i7);
    let i8 = text_item(c.user_icon);
    lemma_with_field(e8, TAG_USER_ICON, i8, 10);
    let e9 = with_field(e8, TAG_USER_ICON, i8);
    assert(e9 == credential_entries(c));
    let d = decoded_entries(e9);
    assert(as_decoded(credential_record(c)) == DecodedView::Entries(d));
    assert(field(d, TAG_CREDENTIAL_ID) == Some(i0));
    assert(field(d, TAG_PRIVATE_KEY) == Some(i1));
    assert(field(d, TAG_RP_ID) == Some(i2));
    assert(field(d, TAG_USER_HANDLE) == Some(i3));
    assert(field(d, TAG_CREATION_ORDER) == Some(i6));
    assert(credential_of(d) =~= c);
}

/// Adds an optional text field to a map.
fn push_text(entries: &mut Vec<(u64, Scalar)>, tag: u64, text: Option<String>)
    ensures
        Record::entries_view(final(entries)@) == with_field(
            Record::entries_view(old(entries)@),
            tag,
            text_item(text_view(text)),
        ),
{
    match text {
        Some(t) => {
            entries.push((tag, Scalar::TextString(t)));
        },
        None => {},
    }
    assert(Record::entries_view(entries@) =~= with_field(
        Record::entries_view(old(entries)@),
        tag,
        text_item(text_view(text)),
    ));
}

/// The record that a credential is stored as.
pub fn record_of_credential(credential: PublicKeyCredentialSource) -> (record: Record)
    ensures
        record@ == credential_record(credential@),
{
    let ghost c = credential@;
    let mut entries: Vec<(u64, Scalar)> = Vec::new();
    entries.push((TAG_CREDENTIAL_ID, Scalar::ByteString(credential.credential_id)));
    entries.push(
        (TAG_PRIVATE_KEY, Scalar::ByteString(slice_to_vec(credential.private_key.as_slice()))),
    );
    entries.push((TAG_RP_ID, Scalar::TextString(credential.rp_id)));
    entries.push((TAG_USER_HANDLE, Scalar::ByteString(credential.user_handle)));
    let ghost e = Seq::<(u64, ScalarView)>::empty().push(
        (TAG_CREDENTIAL_ID, ScalarView::ByteString(c.credential_id)),
    ).push((TAG_PRIVATE_KEY, ScalarView::ByteString(c.private_key))).push(
        (TAG_RP_ID, ScalarView::TextString(c.rp_id)),
    ).push((TAG_USER_HANDLE, ScalarView::ByteString(c.user_handle)));
    assert(Record::entries_view(entries@) =~= e);
    push_text(&mut entries, TAG_USER_DISPLAY_NAME, credential.user_display_name);
    let ghost before = Record::entries_view(entries@);
    if let Some(policy) = credential.cred_protect_policy {
        let number: u64 = match policy {
            CredentialProtectionPolicy::UserVerificationOptional => 1,
            CredentialProtectionPolicy::UserVerificationOptionalWithCredentialIdList => 2,
            CredentialProtectionPolicy::UserVerificationRequired => 3,
        };
        entries.push((TAG_CRED_PROTECT_POLICY, Scalar::Unsigned(number)));
    }
    assert(Record::entries_view(entries@) =~= with_field(
        before,
        TAG_CRED_PROTECT_POLICY,
        policy_item(c.cred_protect_policy),
    ));
    let ghost before = Record::entries_view(entries@);
    entries.push((TAG_CREATION_ORDER, Scalar::Unsigned(credential.creation_order)));
    assert(Record::entries_view(entries@) =~= before.push(
        (TAG_CREATION_ORDER, ScalarView::Unsigned(c.creation_order)),
    ));
    push_text(&mut entries, TAG_USER_NAME, credential.user_name);
    push_text(&mut entries, TAG_USER_ICON, credential.user_icon);
    Record::Entries(entries)
}

/// Serializes a credential to storage representation. Deserializing the bytes gives the credential
/// back.
pub fn serialize_credential(credential: PublicKeyCredentialSource) -> (data: Result<
    Vec<u8>,
    Ctap2StatusCode,
>)
    ensures
        data is Ok,
        data->Ok_0@ == credential_bytes(credential@),
        stored_credential(data->Ok_0@) == Some(credential@),
{
    proof {
        lemma_credential_entries(credential@);
    }
    match cbor_write(record_of_credential(credential)) {
        Some(data) => Ok(data),
        None => Err(Ctap2StatusCode::CTAP2_ERR_VENDOR_RESPONSE_CANNOT_WRITE_CBOR),
    }
}

/// What a list of strings or its absence says.
pub open spec fn texts_view(list: Option<Vec<String>>) -> Option<Seq<Seq<char>>> {
    match list {
        Some(l) => Some(texts(l@)),
        None => None,
    }
}

/// Whether all items of a decoded array are text strings.
pub open spec fn all_texts(items: Seq<Option<ScalarView>>) -> bool {
    forall|i: int| 0 <= i < items.len() ==> is_text(#[trigger] items[i])
}

/// Whether an item is a text string.
pub open spec fn is_text(item: Option<ScalarView>) -> bool {
    item is Some && item->0 is TextString
}

/// The RP IDs that a decoded record stands for, if it stands for a list of them.
pub open spec fn decoded_rp_ids(decoded: Option<DecodedView>) -> Option<Seq<Seq<char>>> {
    match decoded {
        Some(DecodedView::Items(items)) => if all_texts(items) {
            Some(items.map_values(|i: Option<ScalarView>| i->0->TextString_0))
        } else {
            None
        },
        _ => None,
    }
}

/// The RP IDs that stored bytes stand for, if they stand for a list of them.
pub open spec fn stored_rp_ids(data: Seq<u8>) -> Option<Seq<Seq<char>>> {
    decoded_rp_ids(cbor_decoding(data, MAX_NESTING, usize::MAX))
}

/// The record that a list of RP IDs is stored as.
pub open spec fn rp_ids_record(rp_ids: Seq<Seq<char>>) -> RecordView {
    RecordView::Items(rp_ids.map_values(|t: Seq<char>| ScalarView::TextString(t)))
}

/// The bytes that a list of RP IDs is stored as.
pub open spec fn rp_ids_bytes(rp_ids: Seq<Seq<char>>) -> Seq<u8> {
    cbor_encoding(rp_ids_record(rp_ids))->0
}

/// The RP IDs that a decoded record stands for, if it stands for a list of them.
pub fn rp_ids_from_decoded(decoded: Option<Decoded>) -> (rp_ids: Option<Vec<String>>)
    ensures
        texts_view(rp_ids) == decoded_rp_ids(decoded_view(decoded)),
{
    let items = match decoded {
        Some(Decoded::Items(items)) => items,
        _ => {
            return None;
        },
    };
    let ghost view = items@.map_values(|i: Option<Scalar>| item_view(i));
    let mut rp_ids: Vec<String> = Vec::new();
    let mut i: usize = 0;
    while i < items.len()
        invariant
            i <= items@.len(),
            rp_ids@.len() == i,
            view == items@.map_values(|i: Option<Scalar>| item_view(i)),
            decoded_view(decoded) == Some(DecodedView::Items(view)),
            forall|j: int| 0 <= j < i ==> is_text(#[trigger] view[j]),
            forall|j: int|
                0 <= j < i ==> (#[trigger] rp_ids@[j])@ == view[j]->0->TextString_0,
        decreases items@.len() - i,
    {
        assert(view[i as int] == item_view(items@[i as int]));
        match &items[i] {
            Some(Scalar::TextString(t)) => {
                rp_ids.push(t.clone());
            },
            _ => {
                assert(!is_text(view[i as int]));
                return None;
            },
        }
        i = i + 1;
    }
    assert(texts(rp_ids@) =~= view.map_values(|i: Option<ScalarView>| i->0->TextString_0));
    Some(rp_ids)
}

/// Deserializes a list of RP IDs from storage representation.
pub fn _deserialize_min_pin_length_rp_ids(data: &[u8]) -> (rp_ids: Option<Vec<String>>)
    ensures
        texts_view(rp_ids) == stored_rp_ids(data@),
{
    rp_ids_from_decoded(cbor_read(data, MAX_NESTING))
}

/// The record that a list of RP IDs is stored as.
pub fn record_of_rp_ids(rp_ids: Vec<String>) -> (record: Record)
    ensures
        record@ == rp_ids_record(texts(rp_ids@)),
{
    let mut items: Vec<Scalar> = Vec::new();
    let mut i: usize = 0;
    while i < rp_ids.len()
        invariant
            i <= rp_ids@.len(),
            items@.len() == i,
            forall|j: int|
                0 <= j < i ==> (#[trigger] items@[j])@ == ScalarView::TextString(rp_ids@[j]@),
        decreases rp_ids@.len() - i,
    {
        items.push(Scalar::TextString(rp_ids[i].clone()));
        i = i + 1;
    }
    let record = Record::Items(items);
    assert(record@->Items_0 =~= rp_ids_record(texts(rp_ids@))->Items_0);
    record
}

/// Serializes a list of RP IDs to storage representation. Deserializing the bytes gives the list
/// back.
pub fn _serialize_min_pin_length_rp_ids(rp_ids: Vec<String>) -> (data: Result<
    Vec<u8>,
    Ctap2StatusCode,
>)
    ensures
        data is Ok,
        data->Ok_0@ == rp_ids_bytes(texts(rp_ids@)),
        stored_rp_ids(data->Ok_0@) == Some(texts(rp_ids@)),
{
    proof {
        let list = texts(rp_ids@);
        let items = as_decoded(rp_ids_record(list))->Items_0;
        assert(items.map_values(|i: Option<ScalarView>| i->0->TextString_0) =~= list);
    }
    match cbor_write(record_of_rp_ids(rp_ids)) {
        Some(data) => Ok(data),
        None => Err(Ctap2StatusCode::CTAP2_ERR_VENDOR_RESPONSE_CANNOT_WRITE_CBOR),
    }
}

} // verus!
