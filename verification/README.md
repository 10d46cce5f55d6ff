# vault_storage

The persistent storage of a CTAP authenticator, in verified Rust.

The authenticator keeps credentials, secrets, a PIN and a signature counter in a database of named
dictionaries. This crate holds the rules of that store. It touches no database itself: an operation
says what it asks of one (`request::Request`) and what it makes of the answer (`request::Reply`),
and may go on asking. Each step is stated exactly and proved.

`storage::PersistentStore` runs the operations on `pddb::Pddb`, a database that is held in memory.
What a database holds is a map from dictionaries to maps from key names to bytes. Every method says
what it returns and what the database holds then. The steps are proved against any database that
keeps to `pddb::answers`.

| module | what it holds |
| --- | --- |
| `request`, `values` | the conversation with the database; reading and writing single values |
| `init`, `secrets`, `counter`, `pin`, `attestation` | the settings and secrets of the store |
| `scan`, `credentials`, `store_credential`, `short_id` | the credentials |
| `record_format`, `cbor`, `data_formats` | how credentials and lists are laid out |
| `pddb`, `storage` | the database in memory, and the store on it |
| `laws`, `credential_laws` | what holds of the store as a whole |

Encoding and decoding of CBOR is the work of `sk_cbor`, and randomness comes from `rand_core`. The
order of bytes is that of the machine. These calls stand in `cbor`, `init` and `bytes`, with the
facts that are relied on.

`app` runs the same operations on the PDDB of a device.
