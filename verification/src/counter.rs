//! The global signature counter.
use vstd::prelude::*;
use crate::bytes::{u32_from_bytes, u32_to_bytes, ByteOrder};
use crate::key;
use crate::request::{Dict, Operation, Reply, Request, Step};
use crate::status_code::Ctap2StatusCode;

verus! {

use crate::bytes::{u32_bytes, u32_of};
use crate::pddb::{answers, value, with_value, Contents};
use crate::request::{ReplyView, RequestView};
use crate::values::written;

/// What the counter starts with.
pub const INITIAL_SIGNATURE_COUNTER: u32 = 1;

/// Size of the counter.
pub const COUNTER_SIZE: usize = 4;

/// Reading the counter.
pub open spec fn read_counter() -> RequestView {
    RequestView::Fetch {
        dict: Dict::Config,
        key: key::GLOBAL_SIGNATURE_COUNTER@,
        create_key: true,
        hint: Some(COUNTER_SIZE),
        limit: Some(COUNTER_SIZE),
    }
}

/// Writing the counter.
pub open spec fn write_counter(n: u32, order: ByteOrder) -> RequestView {
    RequestView::Write {
        dict: Dict::Config,
        key: key::GLOBAL_SIGNATURE_COUNTER@,
        hint: Some(COUNTER_SIZE),
        data: u32_bytes(n, order),
    }
}

fn read_request() -> (request: Request)
    ensures
        request@ == read_counter(),
{
    Request::Fetch {
        dict: Dict::Config,
        key: key::GLOBAL_SIGNATURE_COUNTER.to_owned(),
        create_key: true,
        hint: Some(COUNTER_SIZE),
        limit: Some(COUNTER_SIZE),
    }
}

fn write_request(n: u32, order: ByteOrder) -> (request: Request)
    ensures
        request@ == write_counter(n, order),
{
    Request::Write {
        dict: Dict::Config,
        key: key::GLOBAL_SIGNATURE_COUNTER.to_owned(),
        hint: Some(COUNTER_SIZE),
        data: u32_to_bytes(n, order),
    }
}

/// Returns the global signature counter. A counter that is not there, or is cut short, is set to
/// its initial value. The bytes of the counter stand in the given order.
#[derive(Debug, PartialEq, Eq)]
pub enum GlobalSignatureCounter {
    /// The counter is being read.
    Reading { order: ByteOrder },
    /// The initial value is being written.
    Starting { order: ByteOrder },
}

/// What is asked next.
pub open spec fn counter_request(counter: GlobalSignatureCounter) -> RequestView {
    match counter {
        GlobalSignatureCounter::Reading { .. } => read_counter(),
        GlobalSignatureCounter::Starting { order } => write_counter(
            INITIAL_SIGNATURE_COUNTER,
            order,
        ),
    }
}

/// What follows from a reply.
pub open spec fn counter_resume(counter: GlobalSignatureCounter, reply: ReplyView) -> Step<
    GlobalSignatureCounter,
    Result<u32, Ctap2StatusCode>,
> {
    match counter {
        GlobalSignatureCounter::Reading { order } => match reply {
            ReplyView::Data(data) => if data.len() == COUNTER_SIZE {
                Step::Return(Ok(u32_of(data, order)))
            } else {
                Step::Ask(GlobalSignatureCounter::Starting { order })
            },
            _ => Step::Return(Err(Ctap2StatusCode::CTAP2_ERR_VENDOR_INTERNAL_ERROR)),
        },
        GlobalSignatureCounter::Starting { .. } => match reply {
            ReplyView::Written(_) => Step::Return(Ok(INITIAL_SIGNATURE_COUNTER)),
            _ => Step::Return(Err(Ctap2StatusCode::CTAP2_ERR_VENDOR_INTERNAL_ERROR)),
        },
    }
}

impl GlobalSignatureCounter {
    /// Starts reading the counter.
    pub fn new(order: ByteOrder) -> (counter: GlobalSignatureCounter)
        ensures
            counter == (GlobalSignatureCounter::Reading { order }),
    {
        GlobalSignatureCounter::Reading { order }
    }

    /// The order of the counter's bytes.
    fn order(&self) -> (order: ByteOrder)
        ensures
            order == counter_order(*self),
    {
        match self {
            GlobalSignatureCounter::Reading { order } => *order,
            GlobalSignatureCounter::Starting { order } => *order,
        }
    }
}

impl Operation for GlobalSignatureCounter {
    type Output = Result<u32, Ctap2StatusCode>;

    fn request(&self) -> (request: Request)
        ensures
            request@ == counter_request(*self),
    {
        match self {
            GlobalSignatureCounter::Reading { .. } => read_request(),
            GlobalSignatureCounter::Starting { order } => write_request(
                INITIAL_SIGNATURE_COUNTER,
                *order,
            ),
        }
    }

    fn resume(self, reply: Reply) -> (step: Step<
        GlobalSignatureCounter,
        Result<u32, Ctap2StatusCode>,
    >)
        ensures
            step == counter_resume(self, reply@),
    {
        match self {
            GlobalSignatureCounter::Reading { order } => match reply {
                Reply::Data(data) => {
                    if data.len() == COUNTER_SIZE {
                        Step::Return(Ok(u32_from_bytes(data.as_slice(), order)))
                    } else {
                        Step::Ask(GlobalSignatureCounter::Starting { order })
                    }
                },
                _ => Step::Return(Err(Ctap2StatusCode::CTAP2_ERR_VENDOR_INTERNAL_ERROR)),
            },
            GlobalSignatureCounter::Starting { .. } => match reply {
                Reply::Written(_) => Step::Return(Ok(INITIAL_SIGNATURE_COUNTER)),
                _ => Step::Return(Err(Ctap2StatusCode::CTAP2_ERR_VENDOR_INTERNAL_ERROR)),
            },
        }
    }
}

/// The global signature counter, and what the database holds once it is read. The dictionary has
/// to be there.
pub open spec fn counter_read(db: Contents, order: ByteOrder) -> (
    Result<u32, Ctap2StatusCode>,
    Contents,
) {
    if !db.contains_key(Dict::Config) {
        (Err(Ctap2StatusCode::CTAP2_ERR_VENDOR_INTERNAL_ERROR), db)
    } else {
        match value(db, Dict::Config, key::GLOBAL_SIGNATURE_COUNTER@) {
            Some(v) if v.len() >= COUNTER_SIZE => (Ok(u32_of(v, order)), db),
            _ => (
                Ok(INITIAL_SIGNATURE_COUNTER),
                with_value(
                    db,
                    Dict::Config,
                    key::GLOBAL_SIGNATURE_COUNTER@,
                    u32_bytes(INITIAL_SIGNATURE_COUNTER, order),
                ),
            ),
        }
    }
}

/// Whether a reading of the counter that holds `db` now, and goes on with `counter`, ends as `end`
/// says.
pub open spec fn counter_progress(
    db: Contents,
    counter: GlobalSignatureCounter,
    end: (Result<u32, Ctap2StatusCode>, Contents),
) -> bool {
    match counter {
        GlobalSignatureCounter::Reading { order } => counter_read(db, order) == end,
        GlobalSignatureCounter::Starting { order } => {
            &&& value(db, Dict::Config, key::GLOBAL_SIGNATURE_COUNTER@) is Some
            &&& value(db, Dict::Config, key::GLOBAL_SIGNATURE_COUNTER@)->0.len() < COUNTER_SIZE
            &&& counter_read(db, order) == end
        },
    }
}

/// The order of the counter's bytes.
pub open spec fn counter_order(counter: GlobalSignatureCounter) -> ByteOrder {
    match counter {
        GlobalSignatureCounter::Reading { order } => order,
        GlobalSignatureCounter::Starting { order } => order,
    }
}

/// How many requests may come after this one.
pub open spec fn counter_left(counter: GlobalSignatureCounter) -> nat {
    match counter {
        GlobalSignatureCounter::Reading { .. } => 1,
        GlobalSignatureCounter::Starting { .. } => 0,
    }
}

/// A request of the reading brings the end nearer.
pub proof fn lemma_counter_step(
    db: Contents,
    counter: GlobalSignatureCounter,
    reply: ReplyView,
    after: Contents,
    end: (Result<u32, Ctap2StatusCode>, Contents),
)
    requires
        counter_progress(db, counter, end),
        answers(db, counter_request(counter), reply, after),
    ensures
        match counter_resume(counter, reply) {
            Step::Ask(next) => {
                &&& counter_progress(after, next, end)
                &&& counter_left(next) < counter_left(counter)
            },
            Step::Return(result) => (result, after) == end,
        },
{
    let key = key::GLOBAL_SIGNATURE_COUNTER@;
    let initial = u32_bytes(INITIAL_SIGNATURE_COUNTER, counter_order(counter));
    if counter is Reading && db.contains_key(Dict::Config) && value(db, Dict::Config, key) is None {
        assert(with_value(after, Dict::Config, key, initial) =~= with_value(
            db,
            Dict::Config,
            key,
            initial,
        )) by {
            assert(with_value(after, Dict::Config, key, initial)[Dict::Config] =~= with_value(
                db,
                Dict::Config,
                key,
                initial,
            )[Dict::Config]);
        }
    }
}

/// Increments the global signature counter.
#[derive(Debug, PartialEq, Eq)]
pub enum IncrGlobalSignatureCounter {
    /// The counter is being read.
    Reading { counter: GlobalSignatureCounter, increment: u32 },
    /// The new value is being written.
    Writing { new_value: u32, order: ByteOrder },
}

/// The counter after an increment. In hopes that servers handle the wrapping gracefully.
pub open spec fn incremented(old_value: u32, increment: u32) -> u32 {
    if old_value + increment > u32::MAX {
        (old_value + increment - u32::MAX - 1) as u32
    } else {
        (old_value + increment) as u32
    }
}

/// What is asked next.
pub open spec fn incr_request(incr: IncrGlobalSignatureCounter) -> RequestView {
    match incr {
        IncrGlobalSignatureCounter::Reading { counter, .. } => counter_request(counter),
        IncrGlobalSignatureCounter::Writing { new_value, order } => write_counter(new_value, order),
    }
}

/// What follows from a reply.
pub open spec fn incr_resume(incr: IncrGlobalSignatureCounter, reply: ReplyView) -> Step<
    IncrGlobalSignatureCounter,
    Result<(), Ctap2StatusCode>,
> {
    match incr {
        IncrGlobalSignatureCounter::Reading { counter, increment } => match counter_resume(
            counter,
            reply,
        ) {
            Step::Ask(counter) => Step::Ask(
                IncrGlobalSignatureCounter::Reading { counter, increment },
            ),
            Step::Return(Ok(old_value)) => Step::Ask(
                IncrGlobalSignatureCounter::Writing {
                    new_value: incremented(old_value, increment),
                    order: counter_order(counter),
                },
            ),
            Step::Return(Err(code)) => Step::Return(Err(code)),
        },
        IncrGlobalSignatureCounter::Writing { .. } => match reply {
            ReplyView::Written(_) => Step::Return(Ok(())),
            _ => Step::Return(Err(Ctap2StatusCode::CTAP2_ERR_VENDOR_INTERNAL_ERROR)),
        },
    }
}

impl IncrGlobalSignatureCounter {
    /// Starts incrementing the counter.
    pub fn new(increment: u32, order: ByteOrder) -> (incr: IncrGlobalSignatureCounter)
        ensures
            incr == (IncrGlobalSignatureCounter::Reading {
                counter: GlobalSignatureCounter::Reading { order },
                increment,
            }),
    {
        IncrGlobalSignatureCounter::Reading {
            counter: GlobalSignatureCounter::new(order),
            increment,
        }
    }
}

impl Operation for IncrGlobalSignatureCounter {
    type Output = Result<(), Ctap2StatusCode>;

    fn request(&self) -> (request: Request)
        ensures
            request@ == incr_request(*self),
    {
        match self {
            IncrGlobalSignatureCounter::Reading { counter, .. } => counter.request(),
            IncrGlobalSignatureCounter::Writing { new_value, order } => write_request(
                *new_value,
                *order,
            ),
        }
    }

    fn resume(self, reply: Reply) -> (step: Step<
        IncrGlobalSignatureCounter,
        Result<(), Ctap2StatusCode>,
    >)
        ensures
            step == incr_resume(self, reply@),
    {
        match self {
            IncrGlobalSignatureCounter::Reading { counter, increment } => {
                let order = counter.order();
                match counter.resume(reply) {
                    Step::Ask(counter) => Step::Ask(
                        IncrGlobalSignatureCounter::Reading { counter, increment },
                    ),
                    Step::Return(Ok(old_value)) => Step::Ask(
                        IncrGlobalSignatureCounter::Writing {
                            new_value: old_value.wrapping_add(increment),
                            order,
                        },
                    ),
                    Step::Return(Err(code)) => Step::Return(Err(code)),
                }
            },
            IncrGlobalSignatureCounter::Writing { .. } => match reply {
                Reply::Written(_) => Step::Return(Ok(())),
                _ => Step::Return(Err(Ctap2StatusCode::CTAP2_ERR_VENDOR_INTERNAL_ERROR)),
            },
        }
    }
}

/// The result of incrementing the counter, and what the database holds then.
pub open spec fn counter_incremented(db: Contents, increment: u32, order: ByteOrder) -> (
    Result<(), Ctap2StatusCode>,
    Contents,
) {
    match counter_read(db, order) {
        (Ok(old_value), read) => written(
            read,
            Dict::Config,
            key::GLOBAL_SIGNATURE_COUNTER@,
            u32_bytes(incremented(old_value, increment), order),
        ),
        (Err(code), read) => (Err(code), read),
    }
}

/// Whether an increment in `db0` that holds `db` now, and goes on with `incr`, is an increment by
/// `increment`.
pub open spec fn incr_progress(
    db0: Contents,
    db: Contents,
    incr: IncrGlobalSignatureCounter,
    increment: u32,
    order: ByteOrder,
) -> bool {
    match incr {
        IncrGlobalSignatureCounter::Reading { counter, increment: i } => {
            &&& i == increment
            &&& counter_order(counter) == order
            &&& counter_progress(db, counter, counter_read(db0, order))
        },
        IncrGlobalSignatureCounter::Writing { new_value, order: o } => {
            &&& o == order
            &&& counter_read(db0, order).0 is Ok
            &&& new_value == incremented(counter_read(db0, order).0->Ok_0, increment)
            &&& db == counter_read(db0, order).1
        },
    }
}

/// How many requests may come after this one.
pub open spec fn incr_left(incr: IncrGlobalSignatureCounter) -> nat {
    match incr {
        IncrGlobalSignatureCounter::Reading { counter, .. } => 1 + counter_left(counter),
        IncrGlobalSignatureCounter::Writing { .. } => 0,
    }
}

/// A request of the increment brings the end nearer.
pub proof fn lemma_incr_step(
    db0: Contents,
    db: Contents,
    incr: IncrGlobalSignatureCounter,
    increment: u32,
    order: ByteOrder,
    reply: ReplyView,
    after: Contents,
)
    requires
        incr_progress(db0, db, incr, increment, order),
        answers(db, incr_request(incr), reply, after),
    ensures
        match incr_resume(incr, reply) {
            Step::Ask(next) => {
                &&& incr_progress(db0, after, next, increment, order)
                &&& incr_left(next) < incr_left(incr)
            },
            Step::Return(result) => (result, after) == counter_incremented(
                db0,
                increment,
                order,
            ),
        },
{
    match incr {
        IncrGlobalSignatureCounter::Reading { counter, .. } => {
            lemma_counter_step(db, counter, reply, after, counter_read(db0, order));
        },
        IncrGlobalSignatureCounter::Writing { .. } => {},
    }
}

} // verus!
