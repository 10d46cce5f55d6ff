//! What the views of requests, replies and results say.
use vstd::prelude::*;
use crate::cbor::{Decoded, Record, Scalar};
use crate::data_formats::PublicKeyCredentialSource;
use crate::init::{Init, Material, Reset, Source};
use crate::request::{Dict, Reply, Request, Step};
use crate::scan::{Found, Scan, ScanStep};
use crate::status_code::Ctap2StatusCode;
use crate::store_credential::StoreCredential;
use crate::values::ReplaceValue;

verus! {

use crate::attestation::certificate_result;
use crate::cbor::ScalarView;
use crate::init::{drawn_view, init_step, reset_step, secret_view, InitView, ResetView};
use crate::names::texts;
use crate::pin::rp_ids_result;
use crate::record_format::{credential_view, decoded_view, texts_view};
use crate::request::{ReplyView, RequestView};
use crate::scan::{found_view, ScanStepView, ScanView};
use crate::store_credential::{store_step, StoreView};
use crate::values::ReplaceView;

/// The texts of a list are those of its strings, in their order.
pub proof fn texts_are_those_of_the_strings(list: Seq<String>)
    ensures
        texts(list).len() == list.len(),
        forall|i: int| 0 <= i < list.len() ==> #[trigger] texts(list)[i] == list[i]@,
{
}

/// The dictionaries have different names.
pub proof fn dictionaries_have_different_names(a: Dict, b: Dict)
    requires
        a.spec_name() == b.spec_name(),
    ensures
        a == b,
{
    reveal_strlit("fido.cfg");
    reveal_strlit("fido.cred");
    reveal_strlit("fido.persistent");
    assert("fido.cfg"@.len() == 8);
    assert("fido.cred"@.len() == 9);
    assert("fido.persistent"@.len() == 15);
}

/// A request says all that it holds: its dictionary, its key, whether the key is created, its size
/// hint, its limit and its data.
pub proof fn request_view_is_faithful(request: Request)
    ensures
        request matches Request::Fetch { dict, key, create_key, hint, limit } ==> request@ == (
        RequestView::Fetch { dict, key: key@, create_key, hint, limit }),
        request matches Request::Measure { dict, key, hint } ==> request@ == (
        RequestView::Measure { dict, key: key@, hint }),
        request matches Request::Write { dict, key, hint, data } ==> request@ == (
        RequestView::Write { dict, key: key@, hint, data: data@ }),
        request matches Request::DeleteKey { dict, key } ==> request@ == (RequestView::DeleteKey {
            dict,
            key: key@,
        }),
        request matches Request::DeleteDict { dict } ==> request@ == (RequestView::DeleteDict {
            dict,
        }),
        request matches Request::ListKeys { dict } ==> request@ == (RequestView::ListKeys { dict }),
{
}

/// A reply says what it is, and what it holds.
pub proof fn reply_view_is_faithful(reply: Reply)
    ensures
        reply is NotFound <==> reply@ is NotFound,
        reply is Refused <==> reply@ is Refused,
        reply is Failed <==> reply@ is Failed,
        reply is Deleted <==> reply@ is Deleted,
        reply matches Reply::Data(data) ==> reply@ == ReplyView::Data(data@),
        reply matches Reply::Length(n) ==> reply@ == ReplyView::Length(n),
        reply matches Reply::Written(n) ==> reply@ == ReplyView::Written(n),
        reply matches Reply::Names(names) ==> reply@ is Names && reply@->Names_0.len()
            == names@.len() && forall|i: int|
            0 <= i < names@.len() ==> #[trigger] reply@->Names_0[i] == names@[i]@,
{
}

/// The steps of a walk say how far it has come: the keys that were read, the key that is being
/// read, the keys that are left, and the credentials that were found, with their keys.
pub proof fn walk_view_is_faithful(scan: Scan, step: ScanStep, found: Seq<Found>)
    ensures
        found_view(found).len() == found.len(),
        forall|i: int|
            0 <= i < found.len() ==> (#[trigger] found_view(found)[i]).0 == found[i].name@
                && found_view(found)[i].1 == found[i].credential@,
        scan is Listing <==> scan@ is Listing,
        scan matches Scan::Reading { done, current, rest, found } ==> scan@ == (ScanView::Reading {
            done: texts(done@),
            current: current@,
            rest: texts(rest@),
            found: found_view(found@),
        }),
        step matches ScanStep::Ask(next) ==> step@ == ScanStepView::Ask(next@),
        step is Broken <==> step@ is Broken,
        step matches ScanStep::Complete { names, found } ==> step@ == (ScanStepView::Complete {
            names: texts(names@),
            found: found_view(found@),
        }),
{
}

/// The steps of an operation say whether it goes on, and how, or ends, and with what result.
pub proof fn step_views_are_faithful(
    init: Init,
    reset: Reset,
    store: StoreCredential,
    replace: ReplaceValue,
    result: Result<(), Ctap2StatusCode>,
)
    ensures
        init_step(Step::Ask(init)) == Step::Ask::<_, Result<(), Ctap2StatusCode>>(init@),
        init_step(Step::Return(result)) == Step::Return::<InitView, _>(result),
        init matches Init::Measuring { essential, source } ==> init@ == (InitView::Measuring {
            essential,
            source,
        }),
        init matches Init::Writing { essential, source, value } ==> init@ == (InitView::Writing {
            essential,
            source,
            value: value@,
        }),
        reset_step(Step::Ask(reset)) == Step::Ask::<_, Result<(), Ctap2StatusCode>>(reset@),
        reset_step(Step::Return(result)) == Step::Return::<ResetView, _>(result),
        reset matches Reset::DeletingConfig { source } ==> reset@ == (ResetView::DeletingConfig {
            source,
        }),
        reset matches Reset::DeletingCredentials { source } ==> reset@ == (
        ResetView::DeletingCredentials { source }),
        reset matches Reset::Initializing { init } ==> reset@ == (ResetView::Initializing {
            init: init@,
        }),
        store_step(Step::Ask(store)) == Step::Ask::<_, Result<(), Ctap2StatusCode>>(store@),
        store_step(Step::Return(result)) == Step::Return::<StoreView, _>(result),
        store matches StoreCredential::Scanning { scan, pending } ==> store@ == (
        StoreView::Scanning { scan: scan@, pending: pending@ }),
        store matches StoreCredential::Replacing { replace, superseded } ==> store@ == (
        StoreView::Replacing { replace: replace@, superseded: texts(superseded@) }),
        store matches StoreCredential::Removing { current, rest } ==> store@ == (
        StoreView::Removing { current: current@, rest: texts(rest@) }),
        replace matches ReplaceValue::Checking { target } ==> replace@ == (ReplaceView::Checking {
            target: target@,
        }),
        replace matches ReplaceValue::Writing { target, longer } ==> replace@ == (
        ReplaceView::Writing { target: target@, longer }),
        replace matches ReplaceValue::Clearing { target } ==> replace@ == (ReplaceView::Clearing {
            target: target@,
        }),
        replace matches ReplaceValue::Rewriting { target } ==> replace@ == (
        ReplaceView::Rewriting { target: target@ }),
{
}

/// The view of an optional value says whether there is one, and what it holds.
pub proof fn optional_views_are_faithful(
    value: Option<Vec<u8>>,
    secret: Option<[u8; 64]>,
    credential: Option<PublicKeyCredentialSource>,
    list: Option<Vec<String>>,
    decoded: Option<Decoded>,
)
    ensures
        drawn_view(value) is Some <==> value is Some,
        value is Some ==> drawn_view(value)->0 == value->0@,
        secret_view(secret) is Some <==> secret is Some,
        secret is Some ==> secret_view(secret)->0 == secret->0@,
        credential_view(credential) is Some <==> credential is Some,
        credential is Some ==> credential_view(credential)->0 == credential->0@,
        texts_view(list) is Some <==> list is Some,
        list is Some ==> texts_view(list)->0 == texts(list->0@),
        decoded_view(decoded) is Some <==> decoded is Some,
        decoded is Some ==> decoded_view(decoded)->0 == decoded->0@,
{
}

/// The view of a certificate, or of RP IDs, says what was read.
pub proof fn read_views_are_faithful(
    certificate: Result<Option<Vec<u8>>, Ctap2StatusCode>,
    rp_ids: Result<Vec<String>, Ctap2StatusCode>,
)
    ensures
        certificate is Err <==> certificate_result(certificate) is Err,
        certificate is Err ==> certificate_result(certificate)->Err_0 == certificate->Err_0,
        certificate is Ok ==> (certificate_result(certificate)->Ok_0 is Some
            <==> certificate->Ok_0 is Some),
        certificate is Ok && certificate->Ok_0 is Some ==> certificate_result(certificate)->Ok_0->0
            == certificate->Ok_0->0@,
        rp_ids is Err <==> rp_ids_result(rp_ids) is Err,
        rp_ids is Err ==> rp_ids_result(rp_ids)->Err_0 == rp_ids->Err_0,
        rp_ids is Ok ==> rp_ids_result(rp_ids)->Ok_0 == texts(rp_ids->Ok_0@),
{
}

/// The view of a record says each of its items, or each key with its item, in their order.
pub proof fn record_view_is_faithful(scalar: Scalar, record: Record)
    ensures
        scalar matches Scalar::Unsigned(n) ==> scalar@ == ScalarView::Unsigned(n),
        scalar matches Scalar::ByteString(b) ==> scalar@ == ScalarView::ByteString(b@),
        scalar matches Scalar::TextString(t) ==> scalar@ == ScalarView::TextString(t@),
        record matches Record::Items(items) ==> record@ is Items && record@->Items_0.len()
            == items@.len() && forall|i: int|
            0 <= i < items@.len() ==> #[trigger] record@->Items_0[i] == items@[i]@,
        record matches Record::Entries(entries) ==> record@ is Entries && record@->Entries_0.len()
            == entries@.len() && forall|i: int|
            0 <= i < entries@.len() ==> (#[trigger] record@->Entries_0[i]).0 == entries@[i].0
                && record@->Entries_0[i].1 == entries@[i].1@,
{
}

/// Whether the view of an item says what the item is.
pub open spec fn says_item(said: Option<ScalarView>, item: Option<Scalar>) -> bool {
    &&& said is Some <==> item is Some
    &&& item is Some ==> said->0 == item->0@
}

/// The view of a decoded record says each of its items, or each key with its item, in their order.
pub proof fn decoded_view_is_faithful(decoded: Decoded)
    ensures
        decoded matches Decoded::Single(item) ==> decoded@ is Single && says_item(
            decoded@->Single_0,
            item,
        ),
        decoded matches Decoded::Items(items) ==> decoded@ is Items && decoded@->Items_0.len()
            == items@.len() && forall|i: int|
            0 <= i < items@.len() ==> says_item(#[trigger] decoded@->Items_0[i], items@[i]),
        decoded matches Decoded::Entries(entries) ==> decoded@ is Entries
            && decoded@->Entries_0.len() == entries@.len() && forall|i: int|
            0 <= i < entries@.len() ==> says_item(
                (#[trigger] decoded@->Entries_0[i]).0,
                entries@[i].0,
            ) && says_item(decoded@->Entries_0[i].1, entries@[i].1),
{
}

/// Given secrets are used as they are, and no others.
pub proof fn given_secrets_are_used(given: Material, material: Material)
    ensures
        Source::Given(given).allows(material) <==> material == given,
{
}

} // verus!
