//! Identifiers of blobs and files: 32-byte digests with a hexadecimal name.

use vstd::prelude::*;

verus! {

/// Number of bytes of an identifier.
pub const ID_LEN: usize = 32;

/// Number of characters of an identifier's hexadecimal name.
pub const HEX_LEN: usize = 64;

/// A 32-byte digest that names a blob or a file. The all-zero value names
/// the repository's configuration.
#[derive(Clone, Copy, Debug, Eq, PartialOrd, Ord, Hash)]
pub struct Id(pub [u8; 32]);

/// Why a string is not the hexadecimal name of an identifier.
#[derive(Clone, Copy, Debug, PartialEq, Eq, Structural)]
pub enum IdError {
    /// The string does not have 64 characters.
    Length,
    /// The string has 64 characters, one of which is no hexadecimal digit.
    Digit,
}

impl View for Id {
    type V = Seq<u8>;

    open spec fn view(&self) -> Seq<u8> {
        self.0@
    }
}

/// The lower-case hexadecimal digit of a value below 16.
pub open spec fn hex_digit(v: int) -> char {
    if v < 10 {
        (v + 48) as char
    } else {
        (v + 87) as char
    }
}

/// The value of a hexadecimal digit of either case, or `None` for any other
/// character.
pub open spec fn hex_value(c: char) -> Option<int> {
    if '0' <= c <= '9' {
        Some(c as int - 48)
    } else if 'a' <= c <= 'f' {
        Some(c as int - 87)
    } else if 'A' <= c <= 'F' {
        Some(c as int - 55)
    } else {
        None
    }
}

/// The hexadecimal name of a byte sequence: two lower-case digits per byte,
/// the high half first.
pub open spec fn hex_of(bytes: Seq<u8>) -> Seq<char> {
    Seq::new(
        2 * bytes.len(),
        |i: int|
            if i % 2 == 0 {
                hex_digit(bytes[i / 2] as int / 16)
            } else {
                hex_digit(bytes[i / 2] as int % 16)
            },
    )
}

/// Every character of `s` is a hexadecimal digit.
pub open spec fn is_hex(s: Seq<char>) -> bool {
    forall|i: int| 0 <= i < s.len() ==> (#[trigger] hex_value(s[i])) is Some
}

/// The bytes that a sequence of hexadecimal digits names.
pub open spec fn bytes_of_hex(s: Seq<char>) -> Seq<u8> {
    Seq::new(
        s.len() / 2,
        |i: int| (16 * hex_value(s[2 * i]).unwrap() + hex_value(s[2 * i + 1]).unwrap()) as u8,
    )
}

/// An identifier has 32 bytes.
pub proof fn lemma_id_len(id: Id)
    ensures
        id@.len() == 32,
{
    vstd::array::array_len_matches_n(&id.0);
}

/// Identifiers with the same bytes are the same identifier.
pub proof fn lemma_id_ext(a: Id, b: Id)
    requires
        a@ == b@,
    ensures
        a == b,
{
    vstd::array::array_len_matches_n(&a.0);
    assert(a.0 =~= b.0);
}

/// The identifier with the given bytes.
pub open spec fn id_from(bytes: Seq<u8>) -> Id {
    choose|id: Id| id@ == bytes
}

/// The all-zero identifier.
pub open spec fn null_id() -> Id {
    id_from(Seq::new(32, |i: int| 0u8))
}

/// An array whose first `n` bytes are those of `bytes`.
proof fn lemma_array_with_prefix(bytes: Seq<u8>, n: nat) -> (array: [u8; 32])
    requires
        bytes.len() == 32,
        n <= 32,
    ensures
        array@.len() == 32,
        forall|i: int| 0 <= i < n ==> array@[i] == bytes[i],
    decreases n,
{
    if n == 0 {
        let array = vstd::array::spec_array_fill_for_copy_type::<u8, 32>(0u8);
        vstd::array::array_len_matches_n(&array);
        array
    } else {
        let before = lemma_array_with_prefix(bytes, (n - 1) as nat);
        let array = vstd::array::spec_array_update(before, n - 1, bytes[n - 1]);
        vstd::array::axiom_spec_array_update(before, n - 1, bytes[n - 1]);
        array
    }
}

/// Any 32 bytes are the bytes of an identifier, which `id_from` gives.
pub proof fn lemma_id_from_bytes(bytes: Seq<u8>)
    requires
        bytes.len() == 32,
    ensures
        id_from(bytes)@ == bytes,
{
    let array = lemma_array_with_prefix(bytes, 32);
    let id = Id(array);
    assert(id@ =~= bytes);
}

/// `id_from` gives back the identifier whose bytes it is given.
pub proof fn lemma_id_from(id: Id)
    ensures
        id_from(id@) == id,
{
    lemma_id_ext(id_from(id@), id);
}

/// Decoding the hexadecimal name of 32 bytes gives back those bytes.
pub proof fn lemma_hex_round_trip(bytes: Seq<u8>)
    ensures
        hex_of(bytes).len() == 2 * bytes.len(),
        is_hex(hex_of(bytes)),
        bytes_of_hex(hex_of(bytes)) == bytes,
{
    let s = hex_of(bytes);
    assert forall|i: int| 0 <= i < s.len() implies (#[trigger] hex_value(s[i])) is Some by {
        let b: int = bytes[i / 2] as int;
        assert(0 <= b / 16 < 16 && 0 <= b % 16 < 16);
    }
    assert forall|i: int| 0 <= i < bytes.len() implies bytes_of_hex(s)[i] == bytes[i] by {
        let b: int = bytes[i] as int;
        assert((2 * i) / 2 == i && (2 * i) % 2 == 0);
        assert((2 * i + 1) / 2 == i && (2 * i + 1) % 2 == 1);
        assert(hex_value(hex_digit(b / 16)) == Some(b / 16));
        assert(hex_value(hex_digit(b % 16)) == Some(b % 16));
        assert(16 * (b / 16) + b % 16 == b);
    }
    assert(bytes_of_hex(s) =~= bytes);
}

/// `String::push` appends one character to the string.
pub assume_specification[ String::push ](s: &mut String, c: char)
    ensures
        final(s)@ == old(s)@.push(c),
;

fn hex_char(v: u8) -> (c: char)
    requires
        v < 16,
    ensures
        c == hex_digit(v as int),
{
    if v < 10 {
        (v + 48) as char
    } else {
        (v + 87) as char
    }
}

fn hex_byte_value(b: u8) -> (v: Option<u8>)
    ensures
        b < 128 ==> match v {
            Some(x) => hex_value(b as char) == Some(x as int) && x < 16,
            None => hex_value(b as char) is None,
        },
{
    if 48 <= b && b <= 57 {
        Some(b - 48)
    } else if 97 <= b && b <= 102 {
        Some(b - 87)
    } else if 65 <= b && b <= 70 {
        Some(b - 55)
    } else {
        None
    }
}

impl Id {
    /// The identifier made of the given bytes.
    pub fn new(bytes: [u8; 32]) -> (id: Id)
        ensures
            id@ == bytes@,
            id.0 == bytes,
    {
        Id(bytes)
    }

    /// Reads an identifier from 32 bytes of `data`, starting at `at`.
    pub fn from_slice(data: &[u8], at: usize) -> (id: Id)
        requires
            at + 32 <= data@.len(),
        ensures
            id@ == data@.subrange(at as int, at + 32),
            id == id_from(data@.subrange(at as int, at + 32)),
    {
        let mut bytes = [0u8; 32];
        let mut i: usize = 0;
        let len: usize = data.len();
        while i < 32
            invariant
                i <= 32,
                len == data@.len(),
                at + 32 <= len,
                forall|j: int| 0 <= j < i ==> bytes@[j] == data@[at + j],
            decreases 32 - i,
        {
            bytes[i] = data[at + i];
            i += 1;
        }
        let id = Id(bytes);
        proof {
            assert(id@ =~= data@.subrange(at as int, at + 32));
            lemma_id_from(id);
        }
        id
    }

    /// Whether this is the all-zero identifier.
    pub open spec fn spec_is_null(&self) -> bool {
        forall|i: int| 0 <= i < 32 ==> self@[i] == 0
    }

    /// Whether this is the all-zero identifier.
    pub fn is_null(&self) -> (r: bool)
        ensures
            r == self.spec_is_null(),
    {
        let mut i: usize = 0;
        while i < 32
            invariant
                i <= 32,
                forall|j: int| 0 <= j < i ==> self@[j] == 0,
            decreases 32 - i,
        {
            if self.0[i] != 0 {
                assert(self@[i as int] != 0);
                return false;
            }
            i += 1;
        }
        true
    }

    /// The hexadecimal name of the identifier, in lower case.
    pub fn to_hex(&self) -> (s: String)
        ensures
            s@ == hex_of(self@),
            s@.len() == 64,
    {
        let mut s = String::new();
        let mut i: usize = 0;
        while i < 32
            invariant
                i <= 32,
                s@ == hex_of(self@).subrange(0, 2 * i),
            decreases 32 - i,
        {
            let b: u8 = self.0[i];
            s.push(hex_char(b / 16));
            s.push(hex_char(b % 16));
            proof {
                assert((2 * i) / 2 == i && (2 * i) % 2 == 0);
                assert((2 * i + 1) / 2 == i && (2 * i + 1) % 2 == 1);
                assert(s@ =~= hex_of(self@).subrange(0, 2 * (i + 1)));
            }
            i += 1;
        }
        assert(s@ =~= hex_of(self@));
        s
    }

    /// Reads an identifier from its hexadecimal name. Digits of both cases
    /// are accepted.
    pub fn from_hex(s: &str) -> (r: Result<Id, IdError>)
        ensures
            match r {
                Ok(id) => s@.len() == 64 && is_hex(s@) && id@ == bytes_of_hex(s@),
                Err(IdError::Length) => s@.len() != 64,
                Err(IdError::Digit) => s@.len() == 64 && !is_hex(s@),
            },
    {
        if !s.is_ascii() {
            let n: usize = s.unicode_len();
            if n != 64 {
                return Err(IdError::Length);
            }
            proof {
                if is_hex(s@) {
                    assert forall|k: int| 0 <= k < s@.len() implies '\0' <= #[trigger] s@[k]
                        <= '\u{7f}' by {
                        assert(hex_value(s@[k]) is Some);
                    }
                }
            }
            return Err(IdError::Digit);
        }
        let bytes = s.as_bytes();
        proof {
            vstd::string::is_ascii_spec_bytes(s);
        }
        if bytes.len() != 64 {
            return Err(IdError::Length);
        }
        let mut out = [0u8; 32];
        let mut i: usize = 0;
        while i < 32
            invariant
                i <= 32,
                bytes@.len() == 64,
                s@.len() == 64,
                vstd::string::is_ascii(s),
                bytes@ == Seq::new(s@.len(), |k: int| s@[k] as u8),
                forall|k: int| 0 <= k < 2 * i ==> (#[trigger] hex_value(s@[k])) is Some,
                forall|k: int| 0 <= k < i ==> out@[k] == #[trigger] bytes_of_hex(s@)[k],
            decreases 32 - i,
        {
            let hi = hex_byte_value(bytes[2 * i]);
            let lo = hex_byte_value(bytes[2 * i + 1]);
            proof {
                assert(bytes@[2 * i as int] == s@[2 * i as int] as u8);
                assert(bytes@[2 * i + 1] == s@[2 * i + 1] as u8);
                assert('\0' <= s@[2 * i as int] <= '\u{7f}');
                assert('\0' <= s@[2 * i + 1] <= '\u{7f}');
            }
            match (hi, lo) {
                (Some(h), Some(l)) => {
                    out[i] = h * 16 + l;
                },
                _ => {
                    return Err(IdError::Digit);
                },
            }
            i += 1;
        }
        assert(out@ =~= bytes_of_hex(s@));
        Ok(Id(out))
    }

    /// Whether two identifiers hold the same bytes.
    pub fn same(&self, other: &Id) -> (r: bool)
        ensures
            r == (self@ == other@),
            r == (*self == *other),
    {
        let mut i: usize = 0;
        while i < 32
            invariant
                i <= 32,
                forall|j: int| 0 <= j < i ==> self@[j] == other@[j],
            decreases 32 - i,
        {
            if self.0[i] != other.0[i] {
                return false;
            }
            i += 1;
        }
        proof {
            assert(self@ =~= other@);
            assert(self.0 =~= other.0);
        }
        true
    }
}

impl Default for Id {
    /// The all-zero identifier.
    fn default() -> (id: Id)
        ensures
            id.spec_is_null(),
            id == null_id(),
    {
        let id = Id([0u8; 32]);
        proof {
            lemma_id_len(id);
            assert(id@ =~= Seq::new(32, |i: int| 0u8));
            lemma_id_from(id);
        }
        id
    }
}

impl PartialEq for Id {
    fn eq(&self, other: &Id) -> (r: bool) {
        self.same(other)
    }
}

impl vstd::std_specs::cmp::PartialEqSpecImpl for Id {
    open spec fn obeys_eq_spec() -> bool {
        true
    }

    open spec fn eq_spec(&self, other: &Id) -> bool {
        self@ == other@
    }
}

} // verus!
