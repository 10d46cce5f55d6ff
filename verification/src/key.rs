//! Names of the keys in the database.
use vstd::prelude::*;

verus! {

/// The attestation private key, in the persistent dictionary.
pub const ATTESTATION_PRIVATE_KEY: &'static str = "ATTESTATION_PRIVATE_KEY";

/// The attestation certificate, in the persistent dictionary.
pub const ATTESTATION_CERTIFICATE: &'static str = "ATTESTATION_CERTIFICATE";

/// The AAGUID, in the persistent dictionary.
pub const AAGUID: &'static str = "AAGUID";

/// The CredRandom secrets. They are kept among the credentials, which makes this the one key of
/// that dictionary that does not name a credential.
pub const CRED_RANDOM_SECRET: &'static str = "CRED_RANDOM_SECRET";

/// The master keys.
pub const MASTER_KEYS: &'static str = "MASTER_KEYS";

/// The PIN hash. Absent while no PIN is set.
pub const PIN_HASH: &'static str = "PIN_HASH";

/// The number of remaining PIN retries. Absent while no retry is used up.
pub const PIN_RETRIES: &'static str = "PIN_RETRIES";

/// The minimum PIN length. Absent while it is the default.
pub const MIN_PIN_LENGTH: &'static str = "MIN_PIN_LENGTH";

/// The RP IDs that may read the minimum PIN length. Absent while none is set.
pub const _MIN_PIN_LENGTH_RP_IDS: &'static str = "MIN_PIN_LENGTH_RP_IDS";

/// The global signature counter.
pub const GLOBAL_SIGNATURE_COUNTER: &'static str = "GLOBAL_SIGNATURE_COUNTER";

/// No two keys of the configuration dictionary share a name.
pub proof fn lemma_config_names_distinct()
    ensures
        MASTER_KEYS@ != PIN_HASH@,
        MASTER_KEYS@ != PIN_RETRIES@,
        MASTER_KEYS@ != MIN_PIN_LENGTH@,
        MASTER_KEYS@ != _MIN_PIN_LENGTH_RP_IDS@,
        MASTER_KEYS@ != GLOBAL_SIGNATURE_COUNTER@,
        PIN_HASH@ != PIN_RETRIES@,
        PIN_HASH@ != MIN_PIN_LENGTH@,
        PIN_HASH@ != _MIN_PIN_LENGTH_RP_IDS@,
        PIN_HASH@ != GLOBAL_SIGNATURE_COUNTER@,
        PIN_RETRIES@ != MIN_PIN_LENGTH@,
        PIN_RETRIES@ != _MIN_PIN_LENGTH_RP_IDS@,
        PIN_RETRIES@ != GLOBAL_SIGNATURE_COUNTER@,
        MIN_PIN_LENGTH@ != _MIN_PIN_LENGTH_RP_IDS@,
        MIN_PIN_LENGTH@ != GLOBAL_SIGNATURE_COUNTER@,
        _MIN_PIN_LENGTH_RP_IDS@ != GLOBAL_SIGNATURE_COUNTER@,
{
    reveal_strlit("MASTER_KEYS");
    reveal_strlit("PIN_HASH");
    reveal_strlit("PIN_RETRIES");
    reveal_strlit("MIN_PIN_LENGTH");
    reveal_strlit("MIN_PIN_LENGTH_RP_IDS");
    reveal_strlit("GLOBAL_SIGNATURE_COUNTER");
    assert(MASTER_KEYS@.len() == 11 && PIN_HASH@.len() == 8 && PIN_RETRIES@.len() == 11);
    assert(MIN_PIN_LENGTH@.len() == 14 && _MIN_PIN_LENGTH_RP_IDS@.len() == 21);
    assert(GLOBAL_SIGNATURE_COUNTER@.len() == 24);
    assert(MASTER_KEYS@[0] != PIN_RETRIES@[0]);
}

/// No two keys of the persistent dictionary share a name.
pub proof fn lemma_persistent_names_distinct()
    ensures
        ATTESTATION_PRIVATE_KEY@ != ATTESTATION_CERTIFICATE@,
        ATTESTATION_PRIVATE_KEY@ != AAGUID@,
        ATTESTATION_CERTIFICATE@ != AAGUID@,
{
    reveal_strlit("ATTESTATION_PRIVATE_KEY");
    reveal_strlit("ATTESTATION_CERTIFICATE");
    reveal_strlit("AAGUID");
    assert(ATTESTATION_PRIVATE_KEY@.len() == 23 && ATTESTATION_CERTIFICATE@.len() == 23);
    assert(AAGUID@.len() == 6);
    assert(ATTESTATION_PRIVATE_KEY@[12] != ATTESTATION_CERTIFICATE@[12]);
}

} // verus!
