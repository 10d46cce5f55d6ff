//! Setting up and resetting the store.
use vstd::prelude::*;
use vstd::slice::slice_to_vec;
use rand_core::{OsRng, RngCore};
use crate::key;
use crate::key_material;
use crate::request::{Dict, Operation, Reply, Request, Step};
use crate::status_code::Ctap2StatusCode;

verus! {

use crate::pddb::{answers, value, with_value, Contents};
use crate::request::{ReplyView, RequestView};

/// Size of the master keys: an encryption key and an HMAC key.
pub const MASTER_KEYS_SIZE: usize = 64;

/// Size of the CredRandom secrets: one for use without user verification, and one for use with it.
pub const CRED_RANDOM_SIZE: usize = 64;

/// The random values that a fresh store starts with. A value is missing where there was no
/// randomness to draw it from.
pub struct Material {
    pub master_keys: Option<[u8; 64]>,
    pub cred_random: Option<[u8; 64]>,
}

impl Material {
    /// Whether no value is missing.
    pub open spec fn complete(self) -> bool {
        self.master_keys is Some && self.cred_random is Some
    }
}

/// Calls `OsRng::try_fill_bytes` of `rand_core`, which fills a buffer with random bytes of the
/// operating system, or reports an error where it has none to give. Nothing is known of the bytes,
/// nor of when there is an error.
#[verifier::external_body]
fn random_bytes() -> (bytes: Option<[u8; 64]>) {
    let mut bytes = [0u8; 64];
    OsRng.try_fill_bytes(&mut bytes).ok().map(|_| bytes)
}

/// What a drawn value or its absence says.
pub open spec fn drawn_view(value: Option<Vec<u8>>) -> Option<Seq<u8>> {
    match value {
        Some(v) => Some(v@),
        None => None,
    }
}

/// What a secret or its absence says.
pub open spec fn secret_view(secret: Option<[u8; 64]>) -> Option<Seq<u8>> {
    match secret {
        Some(bytes) => Some(bytes@),
        None => None,
    }
}

/// Where the random values come from.
pub enum Source {
    /// They are drawn when they are needed.
    System,
    /// They are given.
    Given(Material),
}

impl Source {
    /// Whether random values may come from this source.
    pub open spec fn allows(self, material: Material) -> bool {
        match self {
            Source::System => true,
            Source::Given(given) => material == given,
        }
    }

    /// Some random values that may come from this source.
    pub open spec fn some_material(self) -> Material {
        match self {
            Source::System => arbitrary(),
            Source::Given(given) => given,
        }
    }

    /// The value that is stored if there is none, if it can be had. Randomness is drawn only for a
    /// secret that is not given.
    pub fn draw(&self, essential: Essential) -> (value: Option<Vec<u8>>)
        ensures
            exists|material: Material| #[trigger]
                self.allows(material) && drawn_view(value) == essential.initial(material),
    {
        match self {
            Source::System => match essential {
                Essential::Aaguid => {
                    assert(self.allows(self.some_material()));
                    let aaguid = key_material::AAGUID;
                    Some(slice_to_vec(aaguid.as_slice()))
                },
                _ => {
                    let drawn = random_bytes();
                    assert(self.allows(Material { master_keys: drawn, cred_random: drawn }));
                    match drawn {
                        Some(bytes) => Some(slice_to_vec(bytes.as_slice())),
                        None => None,
                    }
                },
            },
            Source::Given(material) => {
                assert(self.allows(*material));
                essential.value(material)
            },
        }
    }
}

/// The values that must be there before the store is used.
#[derive(Clone, Copy, Debug, PartialEq, Eq, Structural)]
pub enum Essential {
    MasterKeys,
    /// The CredRandom secrets. They are kept among the credentials, in order to force the creation
    /// of that dictionary.
    CredRandom,
    Aaguid,
}

impl Essential {
    pub open spec fn spec_dict(self) -> Dict {
        match self {
            Essential::MasterKeys => Dict::Config,
            Essential::CredRandom => Dict::Credentials,
            Essential::Aaguid => Dict::Persistent,
        }
    }

    pub open spec fn spec_key(self) -> Seq<char> {
        match self {
            Essential::MasterKeys => key::MASTER_KEYS@,
            Essential::CredRandom => key::CRED_RANDOM_SECRET@,
            Essential::Aaguid => key::AAGUID@,
        }
    }

    pub open spec fn spec_size(self) -> usize {
        match self {
            Essential::MasterKeys => MASTER_KEYS_SIZE,
            Essential::CredRandom => CRED_RANDOM_SIZE,
            Essential::Aaguid => key_material::AAGUID_LENGTH,
        }
    }

    /// The value that is stored if there is none, if it can be had.
    pub open spec fn initial(self, material: Material) -> Option<Seq<u8>> {
        match self {
            Essential::MasterKeys => secret_view(material.master_keys),
            Essential::CredRandom => secret_view(material.cred_random),
            Essential::Aaguid => Some(key_material::AAGUID@),
        }
    }

    /// The value that is seen to next.
    pub open spec fn spec_next(self) -> Option<Essential> {
        match self {
            Essential::MasterKeys => Some(Essential::CredRandom),
            Essential::CredRandom => Some(Essential::Aaguid),
            Essential::Aaguid => None,
        }
    }

    /// The dictionary that holds the value.
    pub fn dict(self) -> (dict: Dict)
        ensures
            dict == self.spec_dict(),
    {
        match self {
            Essential::MasterKeys => Dict::Config,
            Essential::CredRandom => Dict::Credentials,
            Essential::Aaguid => Dict::Persistent,
        }
    }

    /// The key of the value.
    pub fn key(self) -> (key: String)
        ensures
            key@ == self.spec_key(),
    {
        match self {
            Essential::MasterKeys => key::MASTER_KEYS.to_owned(),
            Essential::CredRandom => key::CRED_RANDOM_SECRET.to_owned(),
            Essential::Aaguid => key::AAGUID.to_owned(),
        }
    }

    /// The size of the value.
    pub fn size(self) -> (size: usize)
        ensures
            size == self.spec_size(),
    {
        match self {
            Essential::MasterKeys => MASTER_KEYS_SIZE,
            Essential::CredRandom => CRED_RANDOM_SIZE,
            Essential::Aaguid => key_material::AAGUID_LENGTH,
        }
    }

    /// The value that is stored if there is none, if it can be had.
    pub fn value(self, material: &Material) -> (value: Option<Vec<u8>>)
        ensures
            drawn_view(value) == self.initial(*material),
    {
        match self {
            Essential::MasterKeys => secret_bytes(&material.master_keys),
            Essential::CredRandom => secret_bytes(&material.cred_random),
            Essential::Aaguid => {
                let aaguid = key_material::AAGUID;
                Some(slice_to_vec(aaguid.as_slice()))
            },
        }
    }

    /// The value that is seen to next.
    pub fn next(self) -> (next: Option<Essential>)
        ensures
            next == self.spec_next(),
    {
        match self {
            Essential::MasterKeys => Some(Essential::CredRandom),
            Essential::CredRandom => Some(Essential::Aaguid),
            Essential::Aaguid => None,
        }
    }
}

fn secret_bytes(secret: &Option<[u8; 64]>) -> (value: Option<Vec<u8>>)
    ensures
        drawn_view(value) == secret_view(*secret),
{
    match secret {
        Some(bytes) => Some(slice_to_vec(bytes.as_slice())),
        None => None,
    }
}

/// Initializes the store by creating missing values.
pub enum Init {
    /// The length of a value is being asked for.
    Measuring { essential: Essential, source: Source },
    /// A missing value is being written.
    Writing { essential: Essential, source: Source, value: Vec<u8> },
}

/// How far the initialization has come.
pub enum InitView {
    Measuring { essential: Essential, source: Source },
    Writing { essential: Essential, source: Source, value: Seq<u8> },
}

impl View for Init {
    type V = InitView;

    open spec fn view(&self) -> InitView {
        match *self {
            Init::Measuring { essential, source } => InitView::Measuring { essential, source },
            Init::Writing { essential, source, value } => InitView::Writing {
                essential,
                source,
                value: value@,
            },
        }
    }
}

impl InitView {
    /// Where the random values come from.
    pub open spec fn source(self) -> Source {
        match self {
            InitView::Measuring { source, .. } => source,
            InitView::Writing { source, .. } => source,
        }
    }
}

/// What is asked next.
pub open spec fn init_request(init: InitView) -> RequestView {
    match init {
        InitView::Measuring { essential, .. } => RequestView::Measure {
            dict: essential.spec_dict(),
            key: essential.spec_key(),
            hint: Some(essential.spec_size()),
        },
        InitView::Writing { essential, value, .. } => RequestView::Write {
            dict: essential.spec_dict(),
            key: essential.spec_key(),
            hint: Some(essential.spec_size()),
            data: value,
        },
    }
}

/// Turns to the next value, if there is one.
pub open spec fn init_proceed(essential: Essential, source: Source) -> Step<
    InitView,
    Result<(), Ctap2StatusCode>,
> {
    match essential.spec_next() {
        Some(next) => Step::Ask(InitView::Measuring { essential: next, source }),
        None => Step::Return(Ok(())),
    }
}

/// What follows from a reply, where a missing secret is taken from `material`; it is an error where
/// it cannot be had. A value that is neither missing nor of the right length suggests that the
/// database is corrupted.
pub open spec fn init_resume(init: InitView, reply: ReplyView, material: Material) -> Step<
    InitView,
    Result<(), Ctap2StatusCode>,
> {
    match init {
        InitView::Measuring { essential, source } => match reply {
            ReplyView::Length(n) => if n == essential.spec_size() {
                init_proceed(essential, source)
            } else if n == 0 {
                match essential.initial(material) {
                    Some(value) => Step::Ask(InitView::Writing { essential, source, value }),
                    None => Step::Return(Err(Ctap2StatusCode::CTAP2_ERR_VENDOR_INTERNAL_ERROR)),
                }
            } else {
                Step::Return(Err(Ctap2StatusCode::CTAP2_ERR_INVALID_CREDENTIAL))
            },
            _ => Step::Return(Err(Ctap2StatusCode::CTAP2_ERR_VENDOR_INTERNAL_ERROR)),
        },
        InitView::Writing { essential, source, .. } => match reply {
            ReplyView::Written(_) => init_proceed(essential, source),
            _ => Step::Return(Err(Ctap2StatusCode::CTAP2_ERR_VENDOR_INTERNAL_ERROR)),
        },
    }
}

/// What a step says.
pub open spec fn init_step(step: Step<Init, Result<(), Ctap2StatusCode>>) -> Step<
    InitView,
    Result<(), Ctap2StatusCode>,
> {
    match step {
        Step::Ask(init) => Step::Ask(init@),
        Step::Return(result) => Step::Return(result),
    }
}

fn proceed(essential: Essential, source: Source) -> (step: Step<Init, Result<(), Ctap2StatusCode>>)
    ensures
        init_step(step) == init_proceed(essential, source),
{
    match essential.next() {
        Some(next) => Step::Ask(Init::Measuring { essential: next, source }),
        None => Step::Return(Ok(())),
    }
}

impl Init {
    /// Starts the initialization. Missing secrets are taken from `source`.
    pub fn new(source: Source) -> (init: Init)
        ensures
            init@ == (InitView::Measuring { essential: Essential::MasterKeys, source }),
    {
        Init::Measuring { essential: Essential::MasterKeys, source }
    }
}

impl Operation for Init {
    type Output = Result<(), Ctap2StatusCode>;

    fn request(&self) -> (request: Request)
        ensures
            request@ == init_request(self@),
    {
        match self {
            Init::Measuring { essential, .. } => Request::Measure {
                dict: essential.dict(),
                key: essential.key(),
                hint: Some(essential.size()),
            },
            Init::Writing { essential, value, .. } => Request::Write {
                dict: essential.dict(),
                key: essential.key(),
                hint: Some(essential.size()),
                data: slice_to_vec(value.as_slice()),
            },
        }
    }

    fn resume(self, reply: Reply) -> (step: Step<Init, Result<(), Ctap2StatusCode>>)
        ensures
            exists|material: Material| #[trigger]
                self@.source().allows(material) && init_step(step) == init_resume(
                    self@,
                    reply@,
                    material,
                ),
    {
        assert(self@.source().allows(self@.source().some_material()));
        match self {
            Init::Measuring { essential, source } => match reply {
                Reply::Length(n) => {
                    if n == essential.size() {
                        proceed(essential, source)
                    } else if n == 0 {
                        match source.draw(essential) {
                            Some(value) => Step::Ask(Init::Writing { essential, source, value }),
                            None => Step::Return(
                                Err(Ctap2StatusCode::CTAP2_ERR_VENDOR_INTERNAL_ERROR),
                            ),
                        }
                    } else {
                        Step::Return(Err(Ctap2StatusCode::CTAP2_ERR_INVALID_CREDENTIAL))
                    }
                },
                _ => Step::Return(Err(Ctap2StatusCode::CTAP2_ERR_VENDOR_INTERNAL_ERROR)),
            },
            Init::Writing { essential, source, value: _ } => match reply {
                Reply::Written(_) => proceed(essential, source),
                _ => Step::Return(Err(Ctap2StatusCode::CTAP2_ERR_VENDOR_INTERNAL_ERROR)),
            },
        }
    }
}

/// Whether a value is in place.
pub open spec fn in_place(db: Contents, essential: Essential) -> bool {
    match value(db, essential.spec_dict(), essential.spec_key()) {
        Some(v) => v.len() == essential.spec_size(),
        None => false,
    }
}

/// Whether a value is missing: its key is not there, or is empty.
pub open spec fn is_missing(db: Contents, essential: Essential) -> bool {
    match value(db, essential.spec_dict(), essential.spec_key()) {
        Some(v) => v.len() == 0,
        None => true,
    }
}

/// Whether a database is initialized: all that must be there before the store is used is there.
pub open spec fn initialized(db: Contents) -> bool {
    forall|essential: Essential| #[trigger] in_place(db, essential)
}

/// The result of seeing to one value, and what the database holds then. Where the value is missing
/// and cannot be had, its key is left empty.
pub open spec fn settled(db: Contents, essential: Essential, material: Material) -> (
    Result<(), Ctap2StatusCode>,
    Contents,
) {
    if in_place(db, essential) {
        (Ok(()), db)
    } else if is_missing(db, essential) {
        let dict = essential.spec_dict();
        let key = essential.spec_key();
        match essential.initial(material) {
            Some(v) => (Ok(()), with_value(db, dict, key, v)),
            None => (
                Err(Ctap2StatusCode::CTAP2_ERR_VENDOR_INTERNAL_ERROR),
                with_value(db, dict, key, Seq::empty()),
            ),
        }
    } else {
        (Err(Ctap2StatusCode::CTAP2_ERR_INVALID_CREDENTIAL), db)
    }
}

/// How many values are seen to after this one.
pub open spec fn left_after(essential: Essential) -> nat {
    match essential {
        Essential::MasterKeys => 2,
        Essential::CredRandom => 1,
        Essential::Aaguid => 0,
    }
}

/// The result of seeing to a value and to those after it, and what the database holds then.
pub open spec fn settled_from(db: Contents, essential: Essential, material: Material) -> (
    Result<(), Ctap2StatusCode>,
    Contents,
)
    decreases left_after(essential),
{
    let (result, after) = settled(db, essential, material);
    match (result, essential.spec_next()) {
        (Ok(_), Some(next)) => settled_from(after, next, material),
        _ => (result, after),
    }
}

/// The result of the initialization, and what the database holds then.
pub open spec fn init_done(db: Contents, material: Material) -> (
    Result<(), Ctap2StatusCode>,
    Contents,
) {
    settled_from(db, Essential::MasterKeys, material)
}

/// Whether a value is there, or is missing and can be had.
pub open spec fn is_supplied(db: Contents, essential: Essential, material: Material) -> bool {
    in_place(db, essential) || is_missing(db, essential) && essential.initial(material) is Some
}

/// An initialization succeeds exactly where every value is there or can be had, and then the
/// database is initialized.
pub proof fn lemma_initialized(db: Contents, material: Material)
    ensures
        init_done(db, material).0 is Ok <==> forall|essential: Essential| #[trigger]
            is_supplied(db, essential, material),
        init_done(db, material).0 is Ok ==> initialized(init_done(db, material).1),
{
    reveal_with_fuel(settled_from, 3);
    let d1 = settled(db, Essential::MasterKeys, material).1;
    let d2 = settled(d1, Essential::CredRandom, material).1;
    let d3 = settled(d2, Essential::Aaguid, material).1;
    let a = is_supplied(db, Essential::MasterKeys, material);
    let b = is_supplied(db, Essential::CredRandom, material);
    let c = is_supplied(db, Essential::Aaguid, material);
    assert(is_supplied(d1, Essential::CredRandom, material) == b);
    assert(is_supplied(d2, Essential::Aaguid, material) == c);
    if init_done(db, material).0 is Ok {
        assert(in_place(d3, Essential::MasterKeys));
        assert(in_place(d3, Essential::CredRandom));
        assert(in_place(d3, Essential::Aaguid));
    }
}

/// What the database holds once the values before this one are seen to.
pub open spec fn settled_before(
    db: Contents,
    essential: Essential,
    material: Material,
) -> Contents {
    let first = settled(db, Essential::MasterKeys, material).1;
    match essential {
        Essential::MasterKeys => db,
        Essential::CredRandom => first,
        Essential::Aaguid => settled(first, Essential::CredRandom, material).1,
    }
}

/// Whether the values before this one are in order.
pub open spec fn in_order_before(db: Contents, essential: Essential, material: Material) -> bool {
    let first = settled(db, Essential::MasterKeys, material);
    match essential {
        Essential::MasterKeys => true,
        Essential::CredRandom => first.0 is Ok,
        Essential::Aaguid => first.0 is Ok && settled(first.1, Essential::CredRandom, material).0
            is Ok,
    }
}

/// Whether an initialization of `db0` that holds `db` now goes on with `init`, where the secrets so
/// far are those of `material`.
pub open spec fn init_progress(
    db0: Contents,
    db: Contents,
    init: InitView,
    material: Material,
) -> bool {
    match init {
        InitView::Measuring { essential, .. } => {
            &&& in_order_before(db0, essential, material)
            &&& db == settled_before(db0, essential, material)
        },
        InitView::Writing { essential, value: v, .. } => {
            let end = settled(settled_before(db0, essential, material), essential, material);
            &&& in_order_before(db0, essential, material)
            &&& Some(v) == essential.initial(material)
            &&& value(db, essential.spec_dict(), essential.spec_key()) == Some(Seq::<u8>::empty())
            &&& end == (
                Ok::<(), Ctap2StatusCode>(()),
                with_value(db, essential.spec_dict(), essential.spec_key(), v),
            )
        },
    }
}

/// The secrets once the one that is being seen to is taken from `drawn`.
pub open spec fn with_drawn(material: Material, init: InitView, drawn: Material) -> Material {
    match init {
        InitView::Measuring { essential: Essential::MasterKeys, .. } => Material {
            master_keys: drawn.master_keys,
            ..material
        },
        InitView::Measuring { essential: Essential::CredRandom, .. } => Material {
            cred_random: drawn.cred_random,
            ..material
        },
        _ => material,
    }
}

/// How many requests may come after this one.
pub open spec fn init_left(init: InitView) -> nat {
    match init {
        InitView::Measuring { essential, .. } => 2 * left_after(essential) + 1,
        InitView::Writing { essential, .. } => 2 * left_after(essential),
    }
}

/// A request of the initialization brings the end nearer.
pub proof fn lemma_init_step(
    db0: Contents,
    db: Contents,
    init: InitView,
    material: Material,
    reply: ReplyView,
    after: Contents,
    drawn: Material,
)
    requires
        init_progress(db0, db, init, material),
        answers(db, init_request(init), reply, after),
    ensures
        ({
            let secrets = with_drawn(material, init, drawn);
            match init_resume(init, reply, drawn) {
                Step::Ask(next) => {
                    &&& init_progress(db0, after, next, secrets)
                    &&& init_left(next) < init_left(init)
                    &&& next.source() == init.source()
                },
                Step::Return(result) => (result, after) == init_done(db0, secrets),
            }
        }),
{
    let secrets = with_drawn(material, init, drawn);
    reveal_with_fuel(settled_from, 3);
    match init {
        InitView::Measuring { essential, .. } => {
            let dict = essential.spec_dict();
            let key = essential.spec_key();
            assert(settled_before(db0, essential, secrets) == db);
            if value(db, dict, key) is None {
                if let Some(v) = essential.initial(secrets) {
                    let wanted = with_value(db, dict, key, v);
                    assert(with_value(after, dict, key, v)[dict] =~= wanted[dict]);
                    assert(with_value(after, dict, key, v) =~= wanted);
                }
            } else if value(db, dict, key)->0.len() == 0 {
                assert(value(db, dict, key)->0 =~= Seq::<u8>::empty());
                assert(db[dict].insert(key, Seq::empty()) =~= db[dict]);
                assert(with_value(db, dict, key, Seq::empty()) =~= db);
            }
        },
        InitView::Writing { .. } => {},
    }
}

/// Resets the store as for a CTAP reset. Persistent values are not reset.
pub enum Reset {
    /// The configuration is being deleted.
    DeletingConfig { source: Source },
    /// The credentials are being deleted.
    DeletingCredentials { source: Source },
    /// The store is being initialized anew.
    Initializing { init: Init },
}

/// How far the reset has come.
pub enum ResetView {
    DeletingConfig { source: Source },
    DeletingCredentials { source: Source },
    Initializing { init: InitView },
}

impl View for Reset {
    type V = ResetView;

    open spec fn view(&self) -> ResetView {
        match *self {
            Reset::DeletingConfig { source } => ResetView::DeletingConfig { source },
            Reset::DeletingCredentials { source } => ResetView::DeletingCredentials { source },
            Reset::Initializing { init } => ResetView::Initializing { init: init@ },
        }
    }
}

impl ResetView {
    /// Where the random values come from.
    pub open spec fn source(self) -> Source {
        match self {
            ResetView::DeletingConfig { source } => source,
            ResetView::DeletingCredentials { source } => source,
            ResetView::Initializing { init } => init.source(),
        }
    }
}

/// What is asked next.
pub open spec fn reset_request(reset: ResetView) -> RequestView {
    match reset {
        ResetView::DeletingConfig { .. } => RequestView::DeleteDict { dict: Dict::Config },
        ResetView::DeletingCredentials { .. } => RequestView::DeleteDict {
            dict: Dict::Credentials,
        },
        ResetView::Initializing { init } => init_request(init),
    }
}

/// What follows from a reply, where the new secrets are taken from `material`.
pub open spec fn reset_resume(reset: ResetView, reply: ReplyView, material: Material) -> Step<
    ResetView,
    Result<(), Ctap2StatusCode>,
> {
    match reset {
        ResetView::DeletingConfig { source } => match reply {
            ReplyView::Deleted => Step::Ask(ResetView::DeletingCredentials { source }),
            ReplyView::NotFound => Step::Ask(ResetView::DeletingCredentials { source }),
            _ => Step::Return(Err(Ctap2StatusCode::CTAP2_ERR_VENDOR_INTERNAL_ERROR)),
        },
        ResetView::DeletingCredentials { source } => {
            let init = InitView::Measuring { essential: Essential::MasterKeys, source };
            match reply {
                ReplyView::Deleted => Step::Ask(ResetView::Initializing { init }),
                ReplyView::NotFound => Step::Ask(ResetView::Initializing { init }),
                _ => Step::Return(Err(Ctap2StatusCode::CTAP2_ERR_VENDOR_INTERNAL_ERROR)),
            }
        },
        ResetView::Initializing { init } => match init_resume(init, reply, material) {
            Step::Ask(init) => Step::Ask(ResetView::Initializing { init }),
            Step::Return(result) => Step::Return(result),
        },
    }
}

/// What a step says.
pub open spec fn reset_step(step: Step<Reset, Result<(), Ctap2StatusCode>>) -> Step<
    ResetView,
    Result<(), Ctap2StatusCode>,
> {
    match step {
        Step::Ask(reset) => Step::Ask(reset@),
        Step::Return(result) => Step::Return(result),
    }
}

impl Reset {
    /// Starts the reset. The new secrets are taken from `source`.
    pub fn new(source: Source) -> (reset: Reset)
        ensures
            reset@ == (ResetView::DeletingConfig { source }),
    {
        Reset::DeletingConfig { source }
    }
}

impl Operation for Reset {
    type Output = Result<(), Ctap2StatusCode>;

    fn request(&self) -> (request: Request)
        ensures
            request@ == reset_request(self@),
    {
        match self {
            Reset::DeletingConfig { .. } => Request::DeleteDict { dict: Dict::Config },
            Reset::DeletingCredentials { .. } => Request::DeleteDict { dict: Dict::Credentials },
            Reset::Initializing { init } => init.request(),
        }
    }

    fn resume(self, reply: Reply) -> (step: Step<Reset, Result<(), Ctap2StatusCode>>)
        ensures
            exists|material: Material| #[trigger]
                self@.source().allows(material) && reset_step(step) == reset_resume(
                    self@,
                    reply@,
                    material,
                ),
    {
        assert(self@.source().allows(self@.source().some_material()));
        match self {
            Reset::DeletingConfig { source } => match reply {
                Reply::Deleted | Reply::NotFound => Step::Ask(
                    Reset::DeletingCredentials { source },
                ),
                _ => Step::Return(Err(Ctap2StatusCode::CTAP2_ERR_VENDOR_INTERNAL_ERROR)),
            },
            Reset::DeletingCredentials { source } => match reply {
                Reply::Deleted | Reply::NotFound => Step::Ask(
                    Reset::Initializing { init: Init::new(source) },
                ),
                _ => Step::Return(Err(Ctap2StatusCode::CTAP2_ERR_VENDOR_INTERNAL_ERROR)),
            },
            Reset::Initializing { init } => match init.resume(reply) {
                Step::Ask(init) => Step::Ask(Reset::Initializing { init }),
                Step::Return(result) => Step::Return(result),
            },
        }
    }
}

/// The database without its configuration and credentials.
pub open spec fn cleared(db: Contents) -> Contents {
    db.remove(Dict::Config).remove(Dict::Credentials)
}

/// The result of a reset, and what the database holds then.
pub open spec fn reset_done(db: Contents, material: Material) -> (
    Result<(), Ctap2StatusCode>,
    Contents,
) {
    init_done(cleared(db), material)
}

/// Whether a reset of `db0` that holds `db` now goes on with `reset`, where the secrets so far are
/// those of `material`.
pub open spec fn reset_progress(
    db0: Contents,
    db: Contents,
    reset: ResetView,
    material: Material,
) -> bool {
    match reset {
        ResetView::DeletingConfig { .. } => db == db0,
        ResetView::DeletingCredentials { .. } => db == db0.remove(Dict::Config),
        ResetView::Initializing { init } => init_progress(cleared(db0), db, init, material),
    }
}

/// The secrets once the one that is being seen to is taken from `drawn`.
pub open spec fn with_drawn_anew(
    material: Material,
    reset: ResetView,
    drawn: Material,
) -> Material {
    match reset {
        ResetView::Initializing { init } => with_drawn(material, init, drawn),
        _ => material,
    }
}

/// How many dictionaries are still to be deleted.
pub open spec fn reset_stage(reset: ResetView) -> nat {
    match reset {
        ResetView::DeletingConfig { .. } => 2,
        ResetView::DeletingCredentials { .. } => 1,
        ResetView::Initializing { .. } => 0,
    }
}

/// How many requests of the initialization may come after this one.
pub open spec fn reset_left(reset: ResetView) -> nat {
    match reset {
        ResetView::Initializing { init } => init_left(init),
        _ => 0,
    }
}

/// A request of the reset brings the end nearer.
pub proof fn lemma_reset_step(
    db0: Contents,
    db: Contents,
    reset: ResetView,
    material: Material,
    reply: ReplyView,
    after: Contents,
    drawn: Material,
)
    requires
        reset_progress(db0, db, reset, material),
        answers(db, reset_request(reset), reply, after),
    ensures
        ({
            let secrets = with_drawn_anew(material, reset, drawn);
            match reset_resume(reset, reply, drawn) {
                Step::Ask(next) => {
                    &&& reset_progress(db0, after, next, secrets)
                    &&& reset_stage(next) < reset_stage(reset) || reset_stage(next) == reset_stage(
                        reset,
                    ) && reset_left(next) < reset_left(reset)
                    &&& next.source() == reset.source()
                },
                Step::Return(result) => (result, after) == reset_done(db0, secrets),
            }
        }),
{
    match reset {
        ResetView::DeletingConfig { .. } => {
            assert(after =~= db0.remove(Dict::Config));
        },
        ResetView::DeletingCredentials { .. } => {
            assert(after =~= cleared(db0));
        },
        ResetView::Initializing { init } => {
            lemma_init_step(cleared(db0), db, init, material, reply, after, drawn);
        },
    }
}

} // verus!
