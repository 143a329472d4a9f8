//! Content-hash identity scheme: a stable, entity-kind-tagged identifier
//! computed from an entity's defining content alone.

use vstd::prelude::*;

use core::marker::PhantomData;

use crate::strutil::push_char;

verus! {

use vstd::utf8::encode_utf8;

/// The 64-bit FNV-1a offset basis.
pub const FNV_OFFSET: u64 = 0xcbf29ce484222325;

/// The 64-bit FNV-1a prime.
pub const FNV_PRIME: u64 = 0x100000001b3;

/// The digest the identity scheme assigns to a byte string: 64-bit FNV-1a.
/// The algorithm is fixed and fully specified here, so identities are
/// stable across runs, machines and toolchains and may serve as durable
/// storage keys.
pub open spec fn digest(bytes: Seq<u8>) -> u64
    decreases bytes.len(),
{
    if bytes.len() == 0 {
        FNV_OFFSET
    } else {
        vstd::wrapping::u64_specs::wrapping_mul(
            digest(bytes.drop_last()) ^ (bytes.last() as u64),
            FNV_PRIME,
        )
    }
}

/// Digest of a string's UTF-8 bytes; every identity in this library is one.
pub open spec fn str_digest(s: Seq<char>) -> u64 {
    digest(encode_utf8(s))
}

/// Hash a byte string with the identity scheme's fixed hash function.
pub fn digest_bytes(bytes: &[u8]) -> (r: u64)
    ensures
        r == digest(bytes@),
{
    let n = bytes.len();
    let mut h: u64 = FNV_OFFSET;
    let mut i: usize = 0;
    proof {
        assert(bytes@.subrange(0, 0) =~= Seq::<u8>::empty());
    }
    while i < n
        invariant
            i <= n == bytes@.len(),
            h == digest(bytes@.subrange(0, i as int)),
        decreases n - i,
    {
        let b = bytes[i];
        proof {
            assert(bytes@.subrange(0, (i + 1) as int).drop_last() =~= bytes@.subrange(0, i as int));
            assert(bytes@.subrange(0, (i + 1) as int).last() == bytes@[i as int]);
        }
        h = (h ^ (b as u64)).wrapping_mul(FNV_PRIME);
        i += 1;
    }
    proof {
        assert(bytes@.subrange(0, n as int) =~= bytes@);
    }
    h
}

/// Hash a string's UTF-8 bytes with the identity scheme's fixed hash
/// function.
pub fn digest_str(s: &str) -> (r: u64)
    ensures
        r == str_digest(s@),
{
    digest_bytes(s.as_bytes())
}

/// A 64-bit content-hash identifier, tagged at the type level with the kind
/// of entity it identifies. Two identifiers are equal iff their underlying
/// values are equal; the tag only prevents mixing identifier kinds up.
#[derive(Debug, Hash)]
pub struct ID<Of> {
    pub value: u64,
    pub tag: PhantomData<Of>,
}

impl<Of> ID<Of> {
    pub fn new(id: u64) -> (r: Self)
        ensures
            r.value == id,
    {
        ID { value: id, tag: PhantomData }
    }

    /// The identifier value rendered as an upper-case hexadecimal string
    /// without leading zeroes, e.g. `"5E8C0A84534B0F04"`.
    pub fn to_hex(&self) -> (s: String)
        ensures
            s@ == hex_of(self.value as nat),
    {
        u64_to_hex(self.value)
    }
}

impl<Of> Clone for ID<Of> {
    fn clone(&self) -> (r: Self)
        ensures
            r.value == self.value,
    {
        ID { value: self.value, tag: PhantomData }
    }
}

impl<Of> Copy for ID<Of> {

}

impl<Of> PartialEq for ID<Of> {
    fn eq(&self, other: &Self) -> (r: bool)
        ensures
            r == (self.value == other.value),
    {
        self.value == other.value
    }
}

impl<Of> vstd::std_specs::cmp::PartialEqSpecImpl for ID<Of> {
    open spec fn obeys_eq_spec() -> bool {
        true
    }

    open spec fn eq_spec(&self, other: &Self) -> bool {
        self.value == other.value
    }
}

impl<Of> Eq for ID<Of> {

}

/// Entities that carry a content-hash identity.
pub trait Identify {
    /// The entity kind the identifier is tagged with.
    type IdType;

    /// The identity value as a function of the entity's defining content.
    spec fn id_spec(&self) -> u64;

    /// Compute the entity's identifier.
    fn id(&self) -> (r: ID<Self::IdType>)
        ensures
            r.value == self.id_spec(),
    ;

    /// Discard `other`'s identifier kind and rewrap its value under
    /// `Self::IdType`, without recomputing the hash. Composite entities whose
    /// identity rule is "delegate to the wrapped entity" use this to pass an
    /// inner identifier through.
    fn transfer_from<Other>(other: ID<Other>) -> (r: ID<Self::IdType>)
        ensures
            r.value == other.value,
    {
        ID { value: other.value, tag: PhantomData }
    }
}

/// Upper-case hexadecimal digit for a value below 16.
pub open spec fn hex_digit(n: int) -> char {
    if n == 0 {
        '0'
    } else if n == 1 {
        '1'
    } else if n == 2 {
        '2'
    } else if n == 3 {
        '3'
    } else if n == 4 {
        '4'
    } else if n == 5 {
        '5'
    } else if n == 6 {
        '6'
    } else if n == 7 {
        '7'
    } else if n == 8 {
        '8'
    } else if n == 9 {
        '9'
    } else if n == 10 {
        'A'
    } else if n == 11 {
        'B'
    } else if n == 12 {
        'C'
    } else if n == 13 {
        'D'
    } else if n == 14 {
        'E'
    } else {
        'F'
    }
}

/// Upper-case hexadecimal rendering of `n`, most significant digit first,
/// without leading zeroes (`0` renders as `"0"`).
pub open spec fn hex_of(n: nat) -> Seq<char>
    decreases n,
{
    if n < 16 {
        seq![hex_digit(n as int)]
    } else {
        hex_of(n / 16).push(hex_digit((n % 16) as int))
    }
}

fn hex_digit_char(n: u64) -> (c: char)
    requires
        n < 16,
    ensures
        c == hex_digit(n as int),
{
    match n {
        0 => '0',
        1 => '1',
        2 => '2',
        3 => '3',
        4 => '4',
        5 => '5',
        6 => '6',
        7 => '7',
        8 => '8',
        9 => '9',
        10 => 'A',
        11 => 'B',
        12 => 'C',
        13 => 'D',
        14 => 'E',
        _ => 'F',
    }
}

/// Render `n` in upper-case hexadecimal without leading zeroes.
pub fn u64_to_hex(n: u64) -> (s: String)
    ensures
        s@ == hex_of(n as nat),
{
    u128_to_hex(n as u128)
}

fn hex_digit_char_wide(n: u128) -> (c: char)
    requires
        n < 16,
    ensures
        c == hex_digit(n as int),
{
    hex_digit_char(n as u64)
}

/// Render `n` in upper-case hexadecimal without leading zeroes.
pub fn u128_to_hex(n: u128) -> (s: String)
    ensures
        s@ == hex_of(n as nat),
{
    let mut digits: Vec<char> = Vec::new();
    let mut rest: u128 = n;
    loop
        invariant_except_break
            hex_of(n as nat) == hex_of(rest as nat) + digits@,
        ensures
            hex_of(n as nat) == digits@,
        decreases rest,
    {
        let d = hex_digit_char_wide(rest % 16);
        let next = rest / 16;
        proof {
            if next > 0 {
                assert(hex_of(rest as nat) == hex_of(next as nat).push(
                    hex_digit((rest % 16) as int),
                ));
                assert(hex_of(next as nat).push(d) + digits@ =~= hex_of(next as nat) + (seq![d]
                    + digits@));
            } else {
                assert(rest < 16);
                assert(hex_of(rest as nat) == seq![d]);
                assert(hex_of(rest as nat) + digits@ =~= seq![d] + digits@);
            }
        }
        let mut tmp: Vec<char> = Vec::new();
        tmp.push(d);
        tmp.append(&mut digits);
        digits = tmp;
        if next == 0 {
            break ;
        }
        rest = next;
    }
    let mut s = String::new();
    let mut i: usize = 0;
    while i < digits.len()
        invariant
            i <= digits@.len(),
            s@ == digits@.subrange(0, i as int),
        decreases digits@.len() - i,
    {
        push_char(&mut s, digits[i]);
        proof {
            assert(digits@.subrange(0, i as int).push(digits@[i as int]) =~= digits@.subrange(
                0,
                i + 1,
            ));
        }
        i += 1;
    }
    proof {
        assert(digits@.subrange(0, digits@.len() as int) =~= digits@);
    }
    s
}

} // verus!
