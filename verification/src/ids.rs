//! Content hashes, namespaces and peers: three kinds of 32-byte identifier.

use vstd::prelude::*;

use crate::outside::{is_public_key, parse_public_key, public_key_fmt_short};

verus! {

/// A 32-byte identifier that is wholly given by its bytes.
pub trait Id: Copy + Sized {
    /// The bytes of the identifier.
    spec fn bytes(self) -> Seq<u8>;

    /// The bytes of the identifier.
    fn raw(&self) -> (r: &[u8; 32])
        ensures
            r@ == self.bytes(),
    ;

    /// Identifiers with the same bytes are the same.
    proof fn bytes_identify(self, other: Self)
        ensures
            self.bytes().len() == 32,
            self.bytes() == other.bytes() ==> self == other,
    ;
}

/// The hash of a piece of content.
#[derive(Clone, Copy, Debug, PartialEq, Eq)]
pub struct ContentHash {
    bytes: [u8; 32],
}

/// The identifier of a document.
#[derive(Clone, Copy, Debug, PartialEq, Eq)]
pub struct NamespaceId {
    bytes: [u8; 32],
}

/// The identifier of a peer: an ed25519 public key.
#[derive(Clone, Copy, Debug, PartialEq, Eq)]
pub struct PublicKey {
    bytes: [u8; 32],
}

/// The given bytes are not a public key.
#[derive(Clone, Copy, Debug, PartialEq, Eq)]
pub struct InvalidPublicKey;

impl Id for ContentHash {
    closed spec fn bytes(self) -> Seq<u8> {
        self.bytes@
    }

    fn raw(&self) -> (r: &[u8; 32]) {
        &self.bytes
    }

    proof fn bytes_identify(self, other: Self) {
        if self.bytes() == other.bytes() {
            assert(self.bytes =~= other.bytes);
        }
    }
}

impl Id for NamespaceId {
    closed spec fn bytes(self) -> Seq<u8> {
        self.bytes@
    }

    fn raw(&self) -> (r: &[u8; 32]) {
        &self.bytes
    }

    proof fn bytes_identify(self, other: Self) {
        if self.bytes() == other.bytes() {
            assert(self.bytes =~= other.bytes);
        }
    }
}

impl Id for PublicKey {
    closed spec fn bytes(self) -> Seq<u8> {
        self.bytes@
    }

    fn raw(&self) -> (r: &[u8; 32]) {
        &self.bytes
    }

    proof fn bytes_identify(self, other: Self) {
        if self.bytes() == other.bytes() {
            assert(self.bytes =~= other.bytes);
        }
    }
}

impl ContentHash {
    /// The hash made of these bytes.
    pub fn from_bytes(bytes: [u8; 32]) -> (r: ContentHash)
        ensures
            r.bytes() == bytes@,
    {
        ContentHash { bytes }
    }

    /// The bytes of the hash.
    pub fn as_bytes(&self) -> (r: &[u8; 32])
        ensures
            r@ == self.bytes(),
    {
        &self.bytes
    }
}

impl NamespaceId {
    /// The namespace made of these bytes.
    pub fn from_bytes(bytes: [u8; 32]) -> (r: NamespaceId)
        ensures
            r.bytes() == bytes@,
    {
        NamespaceId { bytes }
    }

    /// The bytes of the namespace.
    pub fn as_bytes(&self) -> (r: &[u8; 32])
        ensures
            r@ == self.bytes(),
    {
        &self.bytes
    }

    /// The first five bytes in lower case hexadecimal, for logs.
    pub fn fmt_short(&self) -> (r: String)
        ensures
            r@ == short_hex(self.bytes()),
    {
        let mut text = String::new();
        let mut i: usize = 0;
        while i < 5
            invariant
                i <= 5,
                text@ == short_hex(self.bytes()).take(2 * i),
            decreases 5 - i,
        {
            let byte: u8 = self.bytes[i];
            text.append(hex_str(byte / 16));
            text.append(hex_str(byte % 16));
            i = i + 1;
            assert(text@ =~= short_hex(self.bytes()).take(2 * i));
        }
        assert(short_hex(self.bytes()).take(10) =~= short_hex(self.bytes()));
        text
    }
}

impl PublicKey {
    /// Every key that exists was accepted as one when it was made.
    #[verifier::type_invariant]
    spec fn accepted(self) -> bool {
        is_public_key(self.bytes@)
    }

    /// The key made of these bytes, if they are one.
    pub fn from_bytes(bytes: &[u8; 32]) -> (r: Result<PublicKey, InvalidPublicKey>)
        ensures
            r is Ok <==> is_public_key(bytes@),
            r matches Ok(key) ==> key.bytes() == bytes@,
    {
        match parse_public_key(bytes) {
            Ok(bytes) => Ok(PublicKey { bytes }),
            Err(_) => Err(InvalidPublicKey),
        }
    }

    /// The bytes of the key.
    pub fn as_bytes(&self) -> (r: &[u8; 32])
        ensures
            r@ == self.bytes(),
    {
        &self.bytes
    }

    /// The first five bytes in lower case hexadecimal, for logs.
    pub fn fmt_short(&self) -> (r: String)
        ensures
            r@ == short_hex(self.bytes()),
    {
        proof {
            use_type_invariant(self);
        }
        public_key_fmt_short(&self.bytes)
    }
}

/// The lower case hexadecimal digit of a number below 16.
pub open spec fn hex_digit(n: int) -> char {
    if n < 10 {
        (n + '0' as int) as char
    } else {
        (n - 10 + 'a' as int) as char
    }
}

/// The first five bytes, two hexadecimal digits each, the high one first.
pub open spec fn short_hex(bytes: Seq<u8>) -> Seq<char> {
    Seq::new(
        10,
        |i: int|
            if i % 2 == 0 {
                hex_digit(bytes[i / 2] as int / 16)
            } else {
                hex_digit(bytes[i / 2] as int % 16)
            },
    )
}

fn hex_str(n: u8) -> (r: &'static str)
    requires
        n < 16,
    ensures
        r@ == seq![hex_digit(n as int)],
{
    proof {
        reveal_strlit("0");
        reveal_strlit("1");
        reveal_strlit("2");
        reveal_strlit("3");
        reveal_strlit("4");
        reveal_strlit("5");
        reveal_strlit("6");
        reveal_strlit("7");
        reveal_strlit("8");
        reveal_strlit("9");
        reveal_strlit("a");
        reveal_strlit("b");
        reveal_strlit("c");
        reveal_strlit("d");
        reveal_strlit("e");
        reveal_strlit("f");
    }
    let digit = match n {
        0 => "0",
        1 => "1",
        2 => "2",
        3 => "3",
        4 => "4",
        5 => "5",
        6 => "6",
        7 => "7",
        8 => "8",
        9 => "9",
        10 => "a",
        11 => "b",
        12 => "c",
        13 => "d",
        14 => "e",
        _ => "f",
    };
    assert(digit@ =~= seq![hex_digit(n as int)]);
    digit
}

} // verus!
