use vstd::prelude::*;

use crate::error::IdentityError;

verus! {

/// Number of bytes in an identifier's fingerprint.
pub const IDENTIFIER_LEN: usize = 20;

/// Value of a hexadecimal digit, or `None` for any other character.
pub open spec fn hex_value(c: char) -> Option<u8> {
    if '0' <= c && c <= '9' {
        Some((c as u32 - '0' as u32) as u8)
    } else if 'a' <= c && c <= 'f' {
        Some((c as u32 - 'a' as u32 + 10) as u8)
    } else if 'A' <= c && c <= 'F' {
        Some((c as u32 - 'A' as u32 + 10) as u8)
    } else {
        None
    }
}

/// The fingerprint named by a display form: `I` followed by forty hexadecimal digits.
pub open spec fn parse_identifier(s: Seq<char>) -> Option<Seq<u8>> {
    if s.len() == 1 + 2 * IDENTIFIER_LEN && s[0] == 'I' && (forall|i: int|
        1 <= i < s.len() ==> (#[trigger] hex_value(s[i])) is Some) {
        Some(
            Seq::new(
                IDENTIFIER_LEN as nat,
                |i: int|
                    (hex_value(s[1 + 2 * i]).unwrap() * 16 + hex_value(s[2 + 2 * i]).unwrap()) as u8,
            ),
        )
    } else {
        None
    }
}

/// The lowercase hexadecimal digit for a value below sixteen.
pub open spec fn hex_digit(v: u8) -> char {
    if v < 10 {
        (48 + v) as u8 as char
    } else {
        (87 + v) as u8 as char
    }
}

/// Lowercase hexadecimal form of some bytes: two digits per byte, high digit first.
pub open spec fn hex_lower(b: Seq<u8>) -> Seq<char> {
    Seq::new(
        2 * b.len(),
        |i: int|
            if i % 2 == 0 {
                hex_digit(b[i / 2] / 16)
            } else {
                hex_digit(b[i / 2] % 16)
            },
    )
}

/// Display form of a fingerprint: `I` followed by its lowercase hexadecimal form.
pub open spec fn display_identifier(b: Seq<u8>) -> Seq<char> {
    seq!['I'] + hex_lower(b)
}

/// Content-derived, immutable name of an identity: a fixed-length fingerprint.
#[derive(Clone, Debug, PartialEq, Eq)]
pub struct Identifier {
    bytes: Vec<u8>,
}

impl View for Identifier {
    type V = Seq<u8>;

    closed spec fn view(&self) -> Seq<u8> {
        self.bytes@
    }
}

/// Relies on `String::push`, which appends one character.
#[verifier::external_body]
fn push_char(s: &mut String, c: char)
    ensures
        final(s)@ == old(s)@.push(c),
{
    s.push(c)
}

fn hex_char(v: u8) -> (r: char)
    requires
        v < 16,
    ensures
        r == hex_digit(v),
{
    if v < 10 {
        (48u8 + v) as char
    } else {
        (87u8 + v) as char
    }
}

fn hex_char_value(c: char) -> (r: Option<u8>)
    ensures
        r == hex_value(c),
{
    if '0' <= c && c <= '9' {
        Some((c as u32 - '0' as u32) as u8)
    } else if 'a' <= c && c <= 'f' {
        Some((c as u32 - 'a' as u32 + 10) as u8)
    } else if 'A' <= c && c <= 'F' {
        Some((c as u32 - 'A' as u32 + 10) as u8)
    } else {
        None
    }
}

impl Identifier {
    /// Well-formed: the fingerprint has its fixed length.
    pub open spec fn wf(&self) -> bool {
        self@.len() == IDENTIFIER_LEN
    }

    /// Identifier with the given fingerprint.
    pub fn from_bytes(bytes: Vec<u8>) -> (r: Identifier)
        requires
            bytes@.len() == IDENTIFIER_LEN,
        ensures
            r@ == bytes@,
            r.wf(),
    {
        Identifier { bytes }
    }

    /// The fingerprint.
    pub fn as_bytes(&self) -> (r: &Vec<u8>)
        ensures
            r@ == self@,
    {
        &self.bytes
    }

    /// A copy of this identifier.
    pub fn copy(&self) -> (r: Identifier)
        ensures
            r@ == self@,
    {
        Identifier { bytes: crate::bytes::copy_bytes(&self.bytes) }
    }

    /// The display form: `I` followed by two lowercase hexadecimal digits per byte.
    pub fn to_string(&self) -> (r: String)
        ensures
            r@ == display_identifier(self@),
    {
        let mut r = String::new();
        push_char(&mut r, 'I');
        let mut i: usize = 0;
        while i < self.bytes.len()
            invariant
                i <= self.bytes@.len(),
                r@ == display_identifier(self@).take(1 + 2 * i),
            decreases self.bytes@.len() - i,
        {
            let b = self.bytes[i];
            push_char(&mut r, hex_char(b / 16));
            push_char(&mut r, hex_char(b % 16));
            proof {
                let d = display_identifier(self@);
                assert(d[1 + 2 * i] == hex_digit(b / 16));
                assert(d[2 + 2 * i] == hex_digit(b % 16));
                assert(r@ =~= d.take(1 + 2 * (i + 1)));
            }
            i = i + 1;
        }
        assert(display_identifier(self@).take(1 + 2 * i) =~= display_identifier(self@));
        r
    }

    /// Whether two identifiers name the same identity.
    pub fn same_as(&self, other: &Identifier) -> (r: bool)
        ensures
            r == (self@ == other@),
    {
        crate::bytes::bytes_equal(&self.bytes, &other.bytes)
    }

    /// Parse the display form `I` + forty hexadecimal digits.
    pub fn from_str(s: &str) -> (r: Result<Identifier, IdentityError>)
        ensures
            match parse_identifier(s@) {
                Some(b) => r matches Ok(id) && id@ == b && id.wf(),
                None => r == Err::<Identifier, IdentityError>(IdentityError::ParseError),
            },
    {
        let n = s.unicode_len();
        if n != 1 + 2 * IDENTIFIER_LEN || s.get_char(0) != 'I' {
            return Err(IdentityError::ParseError);
        }
        let mut bytes: Vec<u8> = Vec::new();
        let mut i: usize = 0;
        while i < IDENTIFIER_LEN
            invariant
                n == s@.len(),
                n == 1 + 2 * IDENTIFIER_LEN,
                s@[0] == 'I',
                i <= IDENTIFIER_LEN,
                bytes@.len() == i,
                forall|j: int| 1 <= j < 1 + 2 * i ==> (#[trigger] hex_value(s@[j])) is Some,
                forall|k: int|
                    0 <= k < i ==> bytes@[k] == (hex_value(s@[1 + 2 * k]).unwrap() * 16
                        + hex_value(s@[2 + 2 * k]).unwrap()) as u8,
            decreases IDENTIFIER_LEN - i,
        {
            let hi = hex_char_value(s.get_char(1 + 2 * i));
            let lo = hex_char_value(s.get_char(2 + 2 * i));
            match (hi, lo) {
                (Some(h), Some(l)) => {
                    proof {
                        assert(h < 16 && l < 16);
                    }
                    bytes.push(h * 16 + l);
                    proof {
                        assert forall|j: int| 1 <= j < 1 + 2 * (i + 1) implies (#[trigger] hex_value(
                            s@[j],
                        )) is Some by {
                            if j == 1 + 2 * i || j == 2 + 2 * i {
                            }
                        }
                    }
                },
                _ => {
                    proof {
                        assert(hex_value(s@[1 + 2 * i as int]) is None || hex_value(
                            s@[2 + 2 * i as int],
                        ) is None);
                    }
                    return Err(IdentityError::ParseError);
                },
            }
            i = i + 1;
        }
        let r = Identifier { bytes };
        proof {
            let b = parse_identifier(s@).unwrap();
            assert(r@ =~= b);
        }
        Ok(r)
    }
}

} // verus!
