//! What holds of the layout of values as a whole.
use vstd::prelude::*;
use crate::data_formats::{
    CredentialProtectionPolicy, PublicKeyCredentialSource, PublicKeyCredentialType,
};

verus! {

use crate::bytes::{u32_bytes, u32_of, ByteOrder};
use crate::cbor::{cbor_decoding, cbor_encoding, DecodedView, RecordView, ScalarView};
use crate::credentials::{count_result, found_result, list_result};
use crate::data_formats::CredentialView;
use crate::record_format::{
    credential_bytes, credential_entries, decoded_credential, decoded_rp_ids, field, rp_ids_bytes,
    rp_ids_record, stored_credential, stored_rp_ids, Entries,
};
use crate::secrets::{master_keys_result, MasterKeys};
use crate::short_id::{hex, short_id};
use crate::status_code::Ctap2StatusCode;
use crate::values::{array_result, optional_array_result};

// ---------------- numbers ----------------------

/// The bytes of a number add up to it, each by its weight; the other order is the reverse.
pub proof fn number_bytes_add_up(n: u32)
    ensures
        ({
            let b = u32_bytes(n, ByteOrder::LittleEndian);
            let r = u32_bytes(n, ByteOrder::BigEndian);
            &&& b.len() == 4 && r.len() == 4
            &&& n == b[0] + 256 * b[1] + 65536 * b[2] + 16777216 * b[3]
            &&& n == r[3] + 256 * r[2] + 65536 * r[1] + 16777216 * r[0]
            &&& forall|i: int| 0 <= i < 4 ==> r[i] == b[3 - i]
        }),
{
}

/// Four bytes stand for their sum, each by its weight.
pub proof fn number_is_a_weighted_sum(b: Seq<u8>)
    ensures
        u32_of(b, ByteOrder::LittleEndian) == b[0] + 256 * b[1] + 65536 * b[2] + 16777216 * b[3],
        u32_of(b, ByteOrder::BigEndian) == b[3] + 256 * b[2] + 65536 * b[1] + 16777216 * b[0],
{
}

// ---------------- key names ----------------------

/// What a lower-case hexadecimal digit stands for.
pub open spec fn digit_value(c: char) -> int {
    if '0' <= c <= '9' {
        c as int - '0' as int
    } else if 'a' <= c <= 'f' {
        c as int - 'a' as int + 10
    } else {
        -1
    }
}

/// A byte is written in one lower-case hexadecimal digit where that is enough, else in two, the
/// higher one first.
pub proof fn hex_digits_stand_for_the_byte(b: u8)
    ensures
        ({
            let text = hex(seq![b]);
            &&& b < 16 ==> text.len() == 1 && digit_value(text[0]) == b
            &&& b >= 16 ==> text.len() == 2 && 0 <= digit_value(text[0]) < 16 && 0 <= digit_value(
                text[1],
            ) < 16 && 16 * digit_value(text[0]) + digit_value(text[1]) == b
        }),
{
    reveal_with_fuel(hex, 2);
    assert(seq![b].drop_last() =~= Seq::<u8>::empty());
    assert(hex(seq![b]) =~= crate::short_id::hex_byte(b));
}

/// Bytes are written one after the other.
pub proof fn hex_is_additive(a: Seq<u8>, b: Seq<u8>)
    ensures
        hex(a + b) == hex(a) + hex(b),
    decreases b.len(),
{
    if b.len() == 0 {
        assert(a + b =~= a);
        assert(hex(a) + hex(b) =~= hex(a));
    } else {
        hex_is_additive(a, b.drop_last());
        assert((a + b).drop_last() =~= a + b.drop_last());
        assert(hex(a + b) =~= hex(a) + hex(b));
    }
}

/// The key name of a credential is the text of the first 16 bytes of its ID, or of all of them
/// where there are fewer.
pub proof fn short_id_is_the_text_of_the_iv(credential_id: Seq<u8>)
    ensures
        credential_id.len() >= 16 ==> short_id(credential_id) == hex(
            credential_id.subrange(0, 16),
        ),
        credential_id.len() < 16 ==> short_id(credential_id) == hex(credential_id),
{
    if credential_id.len() >= 16 {
        assert(crate::short_id::iv(credential_id) =~= credential_id.subrange(0, 16));
    }
}

// ---------------- views ----------------------

/// The view of a credential says what its fields hold, and nothing else.
pub proof fn credential_view_is_faithful(c: PublicKeyCredentialSource)
    ensures
        c@.key_type == c.key_type,
        c@.credential_id == c.credential_id@,
        c@.private_key == c.private_key@,
        c@.rp_id == c.rp_id@,
        c@.user_handle == c.user_handle@,
        c@.user_display_name is Some <==> c.user_display_name is Some,
        c.user_display_name is Some ==> c@.user_display_name->0 == c.user_display_name->0@,
        c@.cred_protect_policy == c.cred_protect_policy,
        c@.creation_order == c.creation_order,
        c@.user_name is Some <==> c.user_name is Some,
        c.user_name is Some ==> c@.user_name->0 == c.user_name->0@,
        c@.user_icon is Some <==> c.user_icon is Some,
        c.user_icon is Some ==> c@.user_icon->0 == c.user_icon->0@,
{
}

/// The view of a result says what the result holds.
pub proof fn result_views_are_faithful<const N: usize>(
    found: Result<Option<PublicKeyCredentialSource>, Ctap2StatusCode>,
    list: Result<Vec<PublicKeyCredentialSource>, Ctap2StatusCode>,
    count: Result<usize, Ctap2StatusCode>,
    array: Result<[u8; N], Ctap2StatusCode>,
    optional: Result<Option<[u8; N]>, Ctap2StatusCode>,
)
    ensures
        found is Err ==> found_result(found) is Err && found_result(found)->Err_0 == found->Err_0,
        found is Ok ==> found_result(found) is Ok,
        found is Ok ==> (found_result(found)->Ok_0 is Some <==> found->Ok_0 is Some),
        found is Ok && found->Ok_0 is Some ==> found_result(found)->Ok_0->0 == found->Ok_0->0@,
        list is Err ==> list_result(list) is Err && list_result(list)->Err_0 == list->Err_0,
        list is Ok ==> {
            &&& list_result(list) is Ok
            &&& list_result(list)->Ok_0.len() == list->Ok_0@.len()
            &&& forall|i: int|
                0 <= i < list->Ok_0@.len() ==> #[trigger] list_result(list)->Ok_0[i]
                    == list->Ok_0@[i]@
        },
        count is Err ==> count_result(count) is Err && count_result(count)->Err_0 == count->Err_0,
        count is Ok ==> count_result(count) is Ok && count_result(count)->Ok_0 == count->Ok_0,
        array is Err ==> array_result(array) is Err && array_result(array)->Err_0 == array->Err_0,
        array is Ok ==> array_result(array) is Ok && array_result(array)->Ok_0 == array->Ok_0@,
        optional is Err ==> optional_array_result(optional) is Err && optional_array_result(
            optional,
        )->Err_0 == optional->Err_0,
        optional is Ok ==> optional_array_result(optional) is Ok,
        optional is Ok ==> (optional_array_result(optional)->Ok_0 is Some
            <==> optional->Ok_0 is Some),
        optional is Ok && optional->Ok_0 is Some ==> optional_array_result(optional)->Ok_0->0
            == optional->Ok_0->0@,
{
}

/// The encryption key is the first half of the master keys, and the hmac key is the second.
pub proof fn master_keys_are_halves(keys: MasterKeys, code: Ctap2StatusCode)
    ensures
        ({
            let whole = master_keys_result(Ok(keys));
            &&& whole is Ok
            &&& whole->Ok_0.len() == 64
            &&& keys.encryption@ == whole->Ok_0.subrange(0, 32)
            &&& keys.hmac@ == whole->Ok_0.subrange(32, 64)
        }),
        master_keys_result(Err(code)) == Err::<Seq<u8>, _>(code),
{
    let whole = master_keys_result(Ok(keys))->Ok_0;
    assert(whole.subrange(0, 32) =~= keys.encryption@);
    assert(whole.subrange(32, 64) =~= keys.hmac@);
}

// ---------------- records of credentials ----------------------

/// The item that stands under the first key `tag` of a map.
pub open spec fn stands_first(entries: Entries, tag: u64, i: int) -> bool {
    &&& 0 <= i < entries.len()
    &&& entries[i].0 == Some(ScalarView::Unsigned(tag))
    &&& forall|j: int| 0 <= j < i ==> (#[trigger] entries[j]).0 != Some(ScalarView::Unsigned(tag))
}

/// Whether no key of a map is `tag`.
pub open spec fn stands_nowhere(entries: Entries, tag: u64) -> bool {
    forall|j: int| 0 <= j < entries.len() ==> (#[trigger] entries[j]).0 != Some(
        ScalarView::Unsigned(tag),
    )
}

/// A field is what stands under the first key that is its tag.
pub proof fn field_is_the_first_of_its_tag(entries: Entries, tag: u64)
    ensures
        field(entries, tag) is None <==> stands_nowhere(entries, tag),
        forall|i: int| #[trigger]
            stands_first(entries, tag, i) ==> field(entries, tag) == Some(entries[i].1),
        field(entries, tag) is Some ==> exists|i: int| #[trigger] stands_first(entries, tag, i),
    decreases entries.len(),
{
    if entries.len() > 0 {
        let front = entries.drop_last();
        let last = entries.len() - 1;
        field_is_the_first_of_its_tag(front, tag);
        assert(forall|j: int| 0 <= j < front.len() ==> front[j] == entries[j]);
        assert forall|i: int| #[trigger] stands_first(entries, tag, i) implies field(entries, tag)
            == Some(entries[i].1) by {
            if i < last {
                assert(stands_first(front, tag, i));
            } else {
                assert(stands_nowhere(front, tag));
            }
        }
        if field(front, tag) is Some {
            let i = choose|i: int| #[trigger] stands_first(front, tag, i);
            assert(stands_first(entries, tag, i));
        } else if field(entries, tag) is Some {
            assert(stands_first(entries, tag, last));
        }
        if stands_nowhere(entries, tag) {
            assert(stands_nowhere(front, tag));
        }
    }
}

/// The number of a protection policy.
pub open spec fn stands_for_policy(n: u64, policy: CredentialProtectionPolicy) -> bool {
    match policy {
        CredentialProtectionPolicy::UserVerificationOptional => n == 1,
        CredentialProtectionPolicy::UserVerificationOptionalWithCredentialIdList => n == 2,
        CredentialProtectionPolicy::UserVerificationRequired => n == 3,
    }
}

/// Whether a text field, which may be absent, says `text`.
pub open spec fn says_text(item: Option<Option<ScalarView>>, text: Option<Seq<char>>) -> bool {
    match text {
        Some(t) => item == Some(Some(ScalarView::TextString(t))),
        None => item is None,
    }
}

/// A map is read as a credential exactly where each field holds what belongs there, and then the
/// credential says what the fields hold. The protection policies are numbered from 1 to 3; a
/// creation order that is absent is 0.
pub proof fn credential_is_read_by_its_tags(entries: Entries, c: CredentialView)
    ensures
        decoded_credential(Some(DecodedView::Entries(entries))) == Some(c) <==> {
            &&& c.key_type == PublicKeyCredentialType::PublicKey
            &&& c.private_key.len() == 32
            &&& field(entries, 0) == Some(Some(ScalarView::ByteString(c.credential_id)))
            &&& field(entries, 1) == Some(Some(ScalarView::ByteString(c.private_key)))
            &&& field(entries, 2) == Some(Some(ScalarView::TextString(c.rp_id)))
            &&& field(entries, 3) == Some(Some(ScalarView::ByteString(c.user_handle)))
            &&& says_text(field(entries, 4), c.user_display_name)
            &&& match c.cred_protect_policy {
                None => field(entries, 6) is None,
                Some(policy) => exists|n: u64| #[trigger]
                    stands_for_policy(n, policy) && field(entries, 6) == Some(
                        Some(ScalarView::Unsigned(n)),
                    ),
            }
            &&& field(entries, 7) == Some(Some(ScalarView::Unsigned(c.creation_order))) || field(
                entries,
                7,
            ) is None && c.creation_order == 0
            &&& says_text(field(entries, 8), c.user_name)
            &&& says_text(field(entries, 9), c.user_icon)
        },
{
    assert(stands_for_policy(1, CredentialProtectionPolicy::UserVerificationOptional));
    assert(stands_for_policy(
        2,
        CredentialProtectionPolicy::UserVerificationOptionalWithCredentialIdList,
    ));
    assert(stands_for_policy(3, CredentialProtectionPolicy::UserVerificationRequired));
    if decoded_credential(Some(DecodedView::Entries(entries))) is Some {
        let d = decoded_credential(Some(DecodedView::Entries(entries)))->0;
        if d.credential_id == c.credential_id && d.private_key == c.private_key && d.rp_id
            == c.rp_id && d.user_handle == c.user_handle && d.user_display_name
            == c.user_display_name && d.cred_protect_policy == c.cred_protect_policy
            && d.creation_order == c.creation_order && d.user_name == c.user_name && d.user_icon
            == c.user_icon {
            assert(d =~= c);
        }
    }
}

/// Nothing but a map is read as a credential, and stored bytes are read as their decoding says,
/// down to four levels.
pub proof fn only_maps_are_credentials(data: Seq<u8>, decoded: DecodedView)
    ensures
        decoded_credential(None) is None,
        !(decoded is Entries) ==> decoded_credential(Some(decoded)) is None,
        stored_credential(data) == decoded_credential(cbor_decoding(data, 4, usize::MAX)),
{
}

/// A credential is written as a map in the order of its tags, which holds each field that is there
/// and nothing else.
pub proof fn credential_is_written_by_its_tags(c: CredentialView)
    ensures
        credential_bytes(c) == cbor_encoding(RecordView::Entries(credential_entries(c)))->0,
        forall|i: int, j: int|
            0 <= i < j < credential_entries(c).len() ==> #[trigger] credential_entries(c)[i].0
                < #[trigger] credential_entries(c)[j].0,
        forall|tag: u64, item: ScalarView| #[trigger]
            credential_entries(c).contains((tag, item)) <==> {
                ||| tag == 0 && item == ScalarView::ByteString(c.credential_id)
                ||| tag == 1 && item == ScalarView::ByteString(c.private_key)
                ||| tag == 2 && item == ScalarView::TextString(c.rp_id)
                ||| tag == 3 && item == ScalarView::ByteString(c.user_handle)
                ||| tag == 4 && c.user_display_name is Some && item == ScalarView::TextString(
                    c.user_display_name->0,
                )
                ||| tag == 6 && c.cred_protect_policy is Some && item is Unsigned
                    && stands_for_policy(item->Unsigned_0, c.cred_protect_policy->0)
                ||| tag == 7 && item == ScalarView::Unsigned(c.creation_order)
                ||| tag == 8 && c.user_name is Some && item == ScalarView::TextString(
                    c.user_name->0,
                )
                ||| tag == 9 && c.user_icon is Some && item == ScalarView::TextString(
                    c.user_icon->0,
                )
            },
{
    let e = Seq::<(u64, ScalarView)>::empty();
    let i0 = Some(ScalarView::ByteString(c.credential_id));
    let i1 = Some(ScalarView::ByteString(c.private_key));
    let i2 = Some(ScalarView::TextString(c.rp_id));
    let i3 = Some(ScalarView::ByteString(c.user_handle));
    let i4 = crate::record_format::text_item(c.user_display_name);
    let i6 = crate::record_format::policy_item(c.cred_protect_policy);
    let i7 = Some(ScalarView::Unsigned(c.creation_order));
    let i8 = crate::record_format::text_item(c.user_name);
    let i9 = crate::record_format::text_item(c.user_icon);
    let e0 = crate::record_format::with_field(e, 0, i0);
    let e1 = crate::record_format::with_field(e0, 1, i1);
    let e2 = crate::record_format::with_field(e1, 2, i2);
    let e3 = crate::record_format::with_field(e2, 3, i3);
    let e4 = crate::record_format::with_field(e3, 4, i4);
    let e6 = crate::record_format::with_field(e4, 6, i6);
    let e7 = crate::record_format::with_field(e6, 7, i7);
    let e8 = crate::record_format::with_field(e7, 8, i8);
    assert(credential_entries(c) == crate::record_format::with_field(e8, 9, i9));
    lemma_with_field_contains(e, 0, i0);
    lemma_with_field_contains(e0, 1, i1);
    lemma_with_field_contains(e1, 2, i2);
    lemma_with_field_contains(e2, 3, i3);
    lemma_with_field_contains(e3, 4, i4);
    lemma_with_field_contains(e4, 6, i6);
    lemma_with_field_contains(e6, 7, i7);
    lemma_with_field_contains(e7, 8, i8);
    lemma_with_field_contains(e8, 9, i9);
    if c.cred_protect_policy is Some {
        assert(forall|n: u64|
            stands_for_policy(n, c.cred_protect_policy->0) ==> i6 == Some(ScalarView::Unsigned(n)));
    }
}

/// What a map with one more field holds.
proof fn lemma_with_field_contains(
    entries: Seq<(u64, ScalarView)>,
    tag: u64,
    item: Option<ScalarView>,
)
    ensures
        forall|entry: (u64, ScalarView)| #[trigger]
            crate::record_format::with_field(entries, tag, item).contains(entry)
                <==> entries.contains(entry) || item is Some && entry == (tag, item->0),
{
    if item is Some {
        assert forall|entry: (u64, ScalarView)| #[trigger]
            entries.push((tag, item->0)).contains(entry) <==> entries.contains(entry) || entry == (
            tag,
            item->0,
        ) by {
            crate::names::lemma_push_contains(entries, (tag, item->0), entry);
        }
    }
}

// ---------------- records of RP IDs ----------------------

/// A list of RP IDs is written as an array of their texts, in their order.
pub proof fn rp_ids_are_written_in_order(rp_ids: Seq<Seq<char>>)
    ensures
        rp_ids_bytes(rp_ids) == cbor_encoding(rp_ids_record(rp_ids))->0,
        rp_ids_record(rp_ids) is Items,
        rp_ids_record(rp_ids)->Items_0.len() == rp_ids.len(),
        forall|i: int|
            0 <= i < rp_ids.len() ==> #[trigger] rp_ids_record(rp_ids)->Items_0[i]
                == ScalarView::TextString(rp_ids[i]),
{
}

/// An array of texts is read as the list of them, in their order, and nothing else is read as a
/// list.
pub proof fn rp_ids_are_read_in_order(
    data: Seq<u8>,
    items: Seq<Option<ScalarView>>,
    rp_ids: Seq<Seq<char>>,
    decoded: DecodedView,
)
    ensures
        decoded_rp_ids(Some(DecodedView::Items(items))) == Some(rp_ids) <==> {
            &&& items.len() == rp_ids.len()
            &&& forall|i: int|
                0 <= i < items.len() ==> #[trigger] items[i] == Some(
                    ScalarView::TextString(rp_ids[i]),
                )
        },
        decoded_rp_ids(None) is None,
        !(decoded is Items) ==> decoded_rp_ids(Some(decoded)) is None,
        stored_rp_ids(data) == decoded_rp_ids(cbor_decoding(data, 4, usize::MAX)),
{
    let result = decoded_rp_ids(Some(DecodedView::Items(items)));
    if items.len() == rp_ids.len() && forall|i: int|
        0 <= i < items.len() ==> #[trigger] items[i] == Some(ScalarView::TextString(rp_ids[i])) {
        assert(result is Some);
        assert(result->0 =~= rp_ids);
    }
    if result is Some {
        assert forall|i: int| 0 <= i < items.len() implies #[trigger] items[i] == Some(
            ScalarView::TextString(result->0[i]),
        ) by {
            assert(crate::record_format::is_text(items[i]));
        }
    }
}

} // verus!
