//! Reading and writing single values.
use vstd::prelude::*;
use vstd::slice::slice_to_vec;
use crate::request::{Dict, Operation, Query, Reply, Request, Step};
use crate::status_code::Ctap2StatusCode;

verus! {

use crate::pddb::{answers, head, overwritten, value, with_value, without_key, Contents};
use crate::request::{ReplyView, RequestView};

// ---------------- reading ----------------------

/// Reading the first `limit` bytes of a value, or all of it.
pub open spec fn fetch_value(dict: Dict, key: Seq<char>, limit: Option<usize>) -> RequestView {
    RequestView::Fetch { dict, key, create_key: false, hint: None, limit }
}

/// Reading the first `limit` bytes of a value, or all of it.
pub fn fetch(dict: Dict, key: &str, limit: Option<usize>) -> (request: Request)
    ensures
        request@ == fetch_value(dict, key@, limit),
{
    Request::Fetch { dict, key: key.to_owned(), create_key: false, hint: None, limit }
}

/// What an array in a result says.
pub open spec fn array_result<const N: usize>(result: Result<[u8; N], Ctap2StatusCode>) -> Result<
    Seq<u8>,
    Ctap2StatusCode,
> {
    match result {
        Ok(array) => Ok(array@),
        Err(code) => Err(code),
    }
}

/// What an optional array in a result says.
pub open spec fn optional_array_result<const N: usize>(
    result: Result<Option<[u8; N]>, Ctap2StatusCode>,
) -> Result<Option<Seq<u8>>, Ctap2StatusCode> {
    match result {
        Ok(Some(array)) => Ok(Some(array@)),
        Ok(None) => Ok(None),
        Err(code) => Err(code),
    }
}

/// The first `n` bytes of a value; an error where it is shorter.
pub open spec fn first(v: Seq<u8>, n: usize) -> Result<Seq<u8>, Ctap2StatusCode> {
    if v.len() >= n {
        Ok(v.take(n as int))
    } else {
        Err(Ctap2StatusCode::CTAP2_ERR_VENDOR_INTERNAL_ERROR)
    }
}

/// Reading no more than `n` bytes of a value gives its first `n` bytes, unless it is shorter.
pub proof fn lemma_head_is_first(v: Seq<u8>, n: usize)
    ensures
        head(v, Some(n)).len() == n <==> first(v, n) is Ok,
        first(v, n) is Ok ==> head(v, Some(n)) == first(v, n)->Ok_0,
{
    if v.len() == n {
        assert(v.take(n as int) =~= v);
    }
}

// ---------------- writing over a value ----------------------

/// Writes a value of fixed size over what is there.
#[derive(Debug, PartialEq, Eq)]
pub struct WriteValue {
    dict: Dict,
    key: String,
    data: Vec<u8>,
    /// Whether it is an error if fewer bytes were written.
    whole: bool,
}

/// What a write says.
pub struct WriteView {
    pub dict: Dict,
    pub key: Seq<char>,
    pub data: Seq<u8>,
    pub whole: bool,
}

impl View for WriteValue {
    type V = WriteView;

    closed spec fn view(&self) -> WriteView {
        WriteView { dict: self.dict, key: self.key@, data: self.data@, whole: self.whole }
    }
}

/// What is asked. The size hint is the size of the value.
pub open spec fn write_request(write: WriteView) -> RequestView {
    RequestView::Write {
        dict: write.dict,
        key: write.key,
        hint: Some(write.data.len() as usize),
        data: write.data,
    }
}

/// What the reply means.
pub open spec fn write_outcome(write: WriteView, reply: ReplyView) -> Result<(), Ctap2StatusCode> {
    match reply {
        ReplyView::Written(n) => if !write.whole || n == write.data.len() {
            Ok(())
        } else {
            Err(Ctap2StatusCode::CTAP2_ERR_VENDOR_INTERNAL_ERROR)
        },
        _ => Err(Ctap2StatusCode::CTAP2_ERR_VENDOR_INTERNAL_ERROR),
    }
}

impl WriteValue {
    pub(crate) fn new(dict: Dict, key: &str, data: &[u8], whole: bool) -> (write: WriteValue)
        ensures
            write@ == (WriteView { dict, key: key@, data: data@, whole }),
    {
        WriteValue { dict, key: key.to_owned(), data: slice_to_vec(data), whole }
    }
}

impl Query for WriteValue {
    type Output = Result<(), Ctap2StatusCode>;

    fn request(&self) -> (request: Request)
        ensures
            request@ == write_request(self@),
    {
        Request::Write {
            dict: self.dict,
            key: self.key.clone(),
            hint: Some(self.data.len()),
            data: slice_to_vec(self.data.as_slice()),
        }
    }

    fn outcome(self, reply: Reply) -> (result: Result<(), Ctap2StatusCode>)
        ensures
            result == write_outcome(self@, reply@),
    {
        match reply {
            Reply::Written(n) => {
                if !self.whole || n == self.data.len() {
                    Ok(())
                } else {
                    Err(Ctap2StatusCode::CTAP2_ERR_VENDOR_INTERNAL_ERROR)
                }
            },
            _ => Err(Ctap2StatusCode::CTAP2_ERR_VENDOR_INTERNAL_ERROR),
        }
    }
}

/// The result of writing over a value, and what the database holds then. The dictionary has to be
/// there.
pub open spec fn written(db: Contents, dict: Dict, key: Seq<char>, data: Seq<u8>) -> (
    Result<(), Ctap2StatusCode>,
    Contents,
) {
    if db.contains_key(dict) {
        let v = match value(db, dict, key) {
            Some(v) => v,
            None => Seq::empty(),
        };
        (Ok(()), with_value(db, dict, key, overwritten(v, data)))
    } else {
        (Err(Ctap2StatusCode::CTAP2_ERR_VENDOR_INTERNAL_ERROR), db)
    }
}

// ---------------- replacing a value ----------------------

/// A value to be stored, and its place.
#[derive(Debug, PartialEq, Eq)]
pub struct Target {
    dict: Dict,
    key: String,
    hint: usize,
    data: Vec<u8>,
}

/// What a value to be stored says.
pub struct TargetView {
    pub dict: Dict,
    pub key: Seq<char>,
    pub hint: usize,
    pub data: Seq<u8>,
}

impl View for Target {
    type V = TargetView;

    closed spec fn view(&self) -> TargetView {
        TargetView { dict: self.dict, key: self.key@, hint: self.hint, data: self.data@ }
    }
}

/// Replaces a value of variable size. Since a write leaves what the key held beyond the written
/// bytes, a longer value is removed and the new one is written once more. The old value is not
/// touched before the new one could be written.
#[derive(Debug, PartialEq, Eq)]
pub enum ReplaceValue {
    /// The old value is being read.
    Checking { target: Target },
    /// The value is being written. `longer` says whether the old one is longer.
    Writing { target: Target, longer: bool },
    /// The key is being deleted, since it held a longer value.
    Clearing { target: Target },
    /// The value is being written once more.
    Rewriting { target: Target },
}

/// How far the replacement has come.
pub enum ReplaceView {
    Checking { target: TargetView },
    Writing { target: TargetView, longer: bool },
    Clearing { target: TargetView },
    Rewriting { target: TargetView },
}

impl View for ReplaceValue {
    type V = ReplaceView;

    open spec fn view(&self) -> ReplaceView {
        match *self {
            ReplaceValue::Checking { target } => ReplaceView::Checking { target: target@ },
            ReplaceValue::Writing { target, longer } => ReplaceView::Writing {
                target: target@,
                longer,
            },
            ReplaceValue::Clearing { target } => ReplaceView::Clearing { target: target@ },
            ReplaceValue::Rewriting { target } => ReplaceView::Rewriting { target: target@ },
        }
    }
}

/// Writing the value.
pub open spec fn write_target(target: TargetView) -> RequestView {
    RequestView::Write {
        dict: target.dict,
        key: target.key,
        hint: Some(target.hint),
        data: target.data,
    }
}

/// What is asked next.
pub open spec fn replace_request(replace: ReplaceView) -> RequestView {
    match replace {
        ReplaceView::Checking { target } => fetch_value(target.dict, target.key, None),
        ReplaceView::Writing { target, .. } => write_target(target),
        ReplaceView::Clearing { target } => RequestView::DeleteKey {
            dict: target.dict,
            key: target.key,
        },
        ReplaceView::Rewriting { target } => write_target(target),
    }
}

/// What follows from a reply. An old value that cannot be read is written over.
pub open spec fn replace_resume(replace: ReplaceView, reply: ReplyView) -> Step<
    ReplaceView,
    Result<(), Ctap2StatusCode>,
> {
    let failure = Step::Return(Err(Ctap2StatusCode::CTAP2_ERR_VENDOR_INTERNAL_ERROR));
    match replace {
        ReplaceView::Checking { target } => match reply {
            ReplyView::Data(old) => Step::Ask(
                ReplaceView::Writing { target, longer: old.len() > target.data.len() },
            ),
            ReplyView::NotFound => Step::Ask(ReplaceView::Writing { target, longer: false }),
            ReplyView::Failed => Step::Ask(ReplaceView::Writing { target, longer: false }),
            _ => failure,
        },
        ReplaceView::Writing { target, longer } => match reply {
            ReplyView::Written(_) => if longer {
                Step::Ask(ReplaceView::Clearing { target })
            } else {
                Step::Return(Ok(()))
            },
            _ => failure,
        },
        ReplaceView::Clearing { target } => match reply {
            ReplyView::Deleted => Step::Ask(ReplaceView::Rewriting { target }),
            ReplyView::NotFound => Step::Ask(ReplaceView::Rewriting { target }),
            _ => failure,
        },
        ReplaceView::Rewriting { .. } => match reply {
            ReplyView::Written(_) => Step::Return(Ok(())),
            _ => failure,
        },
    }
}

/// The old value is deleted only once the new one was written: a first write that fails leaves the
/// old value.
pub proof fn deletion_follows_a_write(replace: ReplaceView, reply: ReplyView)
    requires
        replace_resume(replace, reply) is Ask,
        replace_request(replace_resume(replace, reply)->Ask_0) is DeleteKey,
    ensures
        replace is Writing,
        replace_request(replace) is Write,
        reply is Written,
{
}

/// What a step says.
pub open spec fn replace_step(step: Step<ReplaceValue, Result<(), Ctap2StatusCode>>) -> Step<
    ReplaceView,
    Result<(), Ctap2StatusCode>,
> {
    match step {
        Step::Ask(replace) => Step::Ask(replace@),
        Step::Return(result) => Step::Return(result),
    }
}

impl Target {
    fn write(&self) -> (request: Request)
        ensures
            request@ == write_target(self@),
    {
        Request::Write {
            dict: self.dict,
            key: self.key.clone(),
            hint: Some(self.hint),
            data: slice_to_vec(self.data.as_slice()),
        }
    }
}

impl ReplaceValue {
    pub(crate) fn new(dict: Dict, key: &str, hint: usize, data: Vec<u8>) -> (replace: ReplaceValue)
        ensures
            replace@ == (ReplaceView::Checking {
                target: TargetView { dict, key: key@, hint, data: data@ },
            }),
    {
        ReplaceValue::Checking { target: Target { dict, key: key.to_owned(), hint, data } }
    }
}

impl Operation for ReplaceValue {
    type Output = Result<(), Ctap2StatusCode>;

    fn request(&self) -> (request: Request)
        ensures
            request@ == replace_request(self@),
    {
        match self {
            ReplaceValue::Checking { target } => fetch(target.dict, target.key.as_str(), None),
            ReplaceValue::Writing { target, .. } => target.write(),
            ReplaceValue::Clearing { target } => Request::DeleteKey {
                dict: target.dict,
                key: target.key.clone(),
            },
            ReplaceValue::Rewriting { target } => target.write(),
        }
    }

    fn resume(self, reply: Reply) -> (step: Step<ReplaceValue, Result<(), Ctap2StatusCode>>)
        ensures
            replace_step(step) == replace_resume(self@, reply@),
    {
        match self {
            ReplaceValue::Checking { target } => match reply {
                Reply::Data(old_value) => {
                    let longer = old_value.len() > target.data.len();
                    Step::Ask(ReplaceValue::Writing { target, longer })
                },
                Reply::NotFound | Reply::Failed => Step::Ask(
                    ReplaceValue::Writing { target, longer: false },
                ),
                _ => Step::Return(Err(Ctap2StatusCode::CTAP2_ERR_VENDOR_INTERNAL_ERROR)),
            },
            ReplaceValue::Writing { target, longer } => match reply {
                Reply::Written(_) => {
                    if longer {
                        Step::Ask(ReplaceValue::Clearing { target })
                    } else {
                        Step::Return(Ok(()))
                    }
                },
                _ => Step::Return(Err(Ctap2StatusCode::CTAP2_ERR_VENDOR_INTERNAL_ERROR)),
            },
            ReplaceValue::Clearing { target } => match reply {
                Reply::Deleted | Reply::NotFound => Step::Ask(ReplaceValue::Rewriting { target }),
                _ => Step::Return(Err(Ctap2StatusCode::CTAP2_ERR_VENDOR_INTERNAL_ERROR)),
            },
            ReplaceValue::Rewriting { target: _ } => match reply {
                Reply::Written(_) => Step::Return(Ok(())),
                _ => Step::Return(Err(Ctap2StatusCode::CTAP2_ERR_VENDOR_INTERNAL_ERROR)),
            },
        }
    }
}

/// The result of replacing a value, and what the database holds then. The dictionary has to be
/// there.
pub open spec fn replaced(db: Contents, dict: Dict, key: Seq<char>, data: Seq<u8>) -> (
    Result<(), Ctap2StatusCode>,
    Contents,
) {
    if db.contains_key(dict) {
        (Ok(()), with_value(db, dict, key, data))
    } else {
        (Err(Ctap2StatusCode::CTAP2_ERR_VENDOR_INTERNAL_ERROR), db)
    }
}

/// Whether a replacement in `db0` that holds `db` now, and goes on with `replace`, is one of
/// `target`.
pub open spec fn replace_progress(
    db0: Contents,
    db: Contents,
    replace: ReplaceView,
    target: TargetView,
) -> bool {
    let old_value = value(db0, target.dict, target.key);
    match replace {
        ReplaceView::Checking { target: t } => t == target && db == db0,
        ReplaceView::Writing { target: t, longer } => {
            &&& t == target
            &&& db == db0
            &&& longer == (old_value is Some && old_value->0.len() > target.data.len())
        },
        ReplaceView::Clearing { target: t } => {
            &&& t == target
            &&& old_value is Some
            &&& db == with_value(
                db0,
                target.dict,
                target.key,
                overwritten(old_value->0, target.data),
            )
        },
        ReplaceView::Rewriting { target: t } => {
            &&& t == target
            &&& old_value is Some
            &&& db == without_key(db0, target.dict, target.key)
        },
    }
}

/// How many requests may come after this one.
pub open spec fn replace_left(replace: ReplaceView) -> nat {
    match replace {
        ReplaceView::Checking { .. } => 3,
        ReplaceView::Writing { .. } => 2,
        ReplaceView::Clearing { .. } => 1,
        ReplaceView::Rewriting { .. } => 0,
    }
}

/// A request of the replacement brings the end nearer.
pub proof fn lemma_replace_step(
    db0: Contents,
    db: Contents,
    replace: ReplaceView,
    target: TargetView,
    reply: ReplyView,
    after: Contents,
)
    requires
        replace_progress(db0, db, replace, target),
        answers(db, replace_request(replace), reply, after),
    ensures
        match replace_resume(replace, reply) {
            Step::Ask(next) => {
                &&& replace_progress(db0, after, next, target)
                &&& replace_left(next) < replace_left(replace)
            },
            Step::Return(result) => (result, after) == replaced(
                db0,
                target.dict,
                target.key,
                target.data,
            ),
        },
{
    let dict = target.dict;
    let key = target.key;
    match replace {
        ReplaceView::Clearing { .. } => {
            assert(db[dict].remove(key) =~= db0[dict].remove(key));
            assert(after =~= without_key(db0, dict, key));
        },
        ReplaceView::Rewriting { .. } => {
            assert(db[dict].insert(key, target.data) =~= db0[dict].insert(key, target.data));
            assert(after =~= with_value(db0, dict, key, target.data));
        },
        _ => {},
    }
}

} // verus!
