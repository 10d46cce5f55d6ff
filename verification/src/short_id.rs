//! Key names of credentials.
//!
//! A credential ID starts with a random 128-bit IV. Written in hexadecimal, the IV names the
//! credential's key in the database. Collisions are very rare in a 128-bit space, and the full
//! credential ID is still compared after a lookup.
use vstd::prelude::*;
use crate::key;

verus! {

/// Size of the IV that a credential ID starts with.
pub const IV_SIZE: usize = 16;

/// The lower-case hexadecimal digit of `n`.
pub open spec fn hex_digit(n: int) -> char {
    if n < 10 {
        (n + 48) as char
    } else {
        (n + 87) as char
    }
}

/// A byte in hexadecimal, without a leading zero.
pub open spec fn hex_byte(b: u8) -> Seq<char> {
    if b < 16 {
        seq![hex_digit(b as int)]
    } else {
        seq![hex_digit(b as int / 16), hex_digit(b as int % 16)]
    }
}

/// Bytes in hexadecimal, one after the other.
pub open spec fn hex(bytes: Seq<u8>) -> Seq<char>
    decreases bytes.len(),
{
    if bytes.len() == 0 {
        Seq::empty()
    } else {
        hex(bytes.drop_last()) + hex_byte(bytes.last())
    }
}

/// The part of a credential ID that names its key: the IV, or all of an ID that is shorter.
pub open spec fn iv(credential_id: Seq<u8>) -> Seq<u8> {
    if credential_id.len() <= IV_SIZE {
        credential_id
    } else {
        credential_id.take(IV_SIZE as int)
    }
}

/// The key name of the credential with the given ID.
pub open spec fn short_id(credential_id: Seq<u8>) -> Seq<char> {
    hex(iv(credential_id))
}

/// The digit of `n` as a string.
fn digit(n: u8) -> (text: &'static str)
    requires
        n < 16,
    ensures
        text@ == seq![hex_digit(n as int)],
{
    proof {
        reveal_strlit("0");
        reveal_strlit("1");
        reveal_strlit("2");
        reveal_strlit("3");
        reveal_strlit("4");
        reveal_strlit("5");
        reveal_strlit("6");
        reveal_strlit("7");
        reveal_strlit("8");
        reveal_strlit("9");
        reveal_strlit("a");
        reveal_strlit("b");
        reveal_strlit("c");
        reveal_strlit("d");
        reveal_strlit("e");
        reveal_strlit("f");
    }
    match n {
        0 => "0",
        1 => "1",
        2 => "2",
        3 => "3",
        4 => "4",
        5 => "5",
        6 => "6",
        7 => "7",
        8 => "8",
        9 => "9",
        10 => "a",
        11 => "b",
        12 => "c",
        13 => "d",
        14 => "e",
        _ => "f",
    }
}

/// The key name of the credential with the given ID.
pub fn cid_to_str(credential_id: &[u8]) -> (name: String)
    ensures
        name@ == short_id(credential_id@),
{
    let size: usize = if credential_id.len() < IV_SIZE {
        credential_id.len()
    } else {
        IV_SIZE
    };
    let mut name = String::new();
    let mut i: usize = 0;
    assert(credential_id@.take(0) =~= Seq::<u8>::empty());
    while i < size
        invariant
            i <= size <= credential_id@.len(),
            name@ == hex(credential_id@.take(i as int)),
        decreases size - i,
    {
        let b = credential_id[i];
        if b >= 16 {
            name.append(digit(b / 16));
        }
        name.append(digit(b % 16));
        proof {
            let longer = credential_id@.take(i + 1);
            assert(longer.drop_last() =~= credential_id@.take(i as int));
            assert(name@ =~= hex(longer));
        }
        i = i + 1;
    }
    assert(credential_id@.take(size as int) =~= iv(credential_id@));
    name
}

/// Whether `c` is a lower-case hexadecimal digit.
pub open spec fn is_hex_digit(c: char) -> bool {
    '0' <= c <= '9' || 'a' <= c <= 'f'
}

/// Hexadecimal text is made of hexadecimal digits.
pub proof fn lemma_hex_digits(bytes: Seq<u8>)
    ensures
        forall|i: int| 0 <= i < hex(bytes).len() ==> is_hex_digit(#[trigger] hex(bytes)[i]),
    decreases bytes.len(),
{
    if bytes.len() > 0 {
        lemma_hex_digits(bytes.drop_last());
        let front = hex(bytes.drop_last());
        let back = hex_byte(bytes.last());
        assert forall|i: int| 0 <= i < hex(bytes).len() implies is_hex_digit(
            #[trigger] hex(bytes)[i],
        ) by {
            if i < front.len() {
                assert(hex(bytes)[i] == front[i]);
            } else {
                assert(hex(bytes)[i] == back[i - front.len()]);
            }
        }
    }
}

/// A byte takes one or two digits, and two where it is not below 16.
proof fn lemma_hex_length(bytes: Seq<u8>)
    ensures
        bytes.len() <= hex(bytes).len() <= 2 * bytes.len(),
        (forall|i: int| 0 <= i < bytes.len() ==> bytes[i] >= 16) ==> hex(bytes).len() == 2
            * bytes.len(),
    decreases bytes.len(),
{
    if bytes.len() > 0 {
        let front = bytes.drop_last();
        lemma_hex_length(front);
        if forall|i: int| 0 <= i < bytes.len() ==> bytes[i] >= 16 {
            assert(forall|i: int| 0 <= i < front.len() ==> front[i] == bytes[i]);
            assert(bytes.last() >= 16);
        }
    }
}

/// Where each byte takes two digits, the digits tell the bytes.
proof fn lemma_hex_injective(a: Seq<u8>, b: Seq<u8>)
    requires
        a.len() == b.len(),
        forall|i: int| 0 <= i < a.len() ==> a[i] >= 16,
        forall|i: int| 0 <= i < b.len() ==> b[i] >= 16,
        hex(a) == hex(b),
    ensures
        a == b,
    decreases a.len(),
{
    if a.len() > 0 {
        let (fa, fb) = (a.drop_last(), b.drop_last());
        let (la, lb) = (a.last(), b.last());
        assert(forall|i: int| 0 <= i < fa.len() ==> fa[i] == a[i]);
        assert(forall|i: int| 0 <= i < fb.len() ==> fb[i] == b[i]);
        lemma_hex_length(fa);
        lemma_hex_length(fb);
        let n = hex(fa).len() as int;
        assert(hex(a).take(n) =~= hex(fa));
        assert(hex(b).take(n) =~= hex(fb));
        lemma_hex_injective(fa, fb);
        assert(hex(a)[n] == hex_digit(la as int / 16));
        assert(hex(b)[n] == hex_digit(lb as int / 16));
        assert(hex(a)[n + 1] == hex_digit(la as int % 16));
        assert(hex(b)[n + 1] == hex_digit(lb as int % 16));
        assert(la == lb);
        assert(a =~= fa.push(la));
        assert(b =~= fb.push(lb));
    } else {
        assert(a =~= b);
    }
}

/// The key name of a credential has 16 to 32 characters, where its ID holds a whole IV.
pub proof fn short_id_length(credential_id: Seq<u8>)
    requires
        credential_id.len() >= IV_SIZE,
    ensures
        16 <= short_id(credential_id).len() <= 32,
{
    lemma_hex_length(iv(credential_id));
}

/// Credentials with different IVs have different keys, where no byte of the IVs is below 16.
pub proof fn short_id_is_injective(a: Seq<u8>, b: Seq<u8>)
    requires
        a.len() >= IV_SIZE,
        b.len() >= IV_SIZE,
        forall|i: int| 0 <= i < IV_SIZE ==> a[i] >= 0x10,
        forall|i: int| 0 <= i < IV_SIZE ==> b[i] >= 0x10,
        short_id(a) == short_id(b),
    ensures
        a.take(IV_SIZE as int) == b.take(IV_SIZE as int),
{
    assert(iv(a) =~= a.take(IV_SIZE as int));
    assert(iv(b) =~= b.take(IV_SIZE as int));
    lemma_hex_injective(iv(a), iv(b));
}

/// No credential shares its key with the CredRandom secrets.
pub proof fn lemma_short_id_is_not_secret(credential_id: Seq<u8>)
    ensures
        short_id(credential_id) != key::CRED_RANDOM_SECRET@,
{
    lemma_hex_digits(iv(credential_id));
    reveal_strlit("CRED_RANDOM_SECRET");
    assert(!is_hex_digit(key::CRED_RANDOM_SECRET@[0]));
}

} // verus!
