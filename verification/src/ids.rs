//! Identifiers: the 12-byte sortable id and the 16-byte point id, with
//! their text forms.

use vstd::prelude::*;

use crate::chars::str_chars;
use crate::erring::HTTPError;

verus! {

/// The text form xid gives a 12-byte id: twenty base32-hex characters. The
/// form depends on the bytes alone.
pub uninterp spec fn xid_str_of(b: Seq<u8>) -> Seq<char>;

/// What xid reads back from a string: twelve bytes, or nothing. The result
/// depends on the string alone.
pub uninterp spec fn xid_parse_of(s: Seq<char>) -> Option<Seq<u8>>;

/// Relies on xid::Id's Display impl, which writes exactly twenty base32-hex
/// characters from the twelve bytes.
#[verifier::external_body]
fn xid_encode(b: &Vec<u8>) -> (r: String)
    requires
        b@.len() == 12,
    ensures
        r@ == xid_str_of(b@),
        r@.len() == 20,
{
    let mut raw = [0u8; 12];
    raw.copy_from_slice(&b[..]);
    xid::Id(raw).to_string()
}

/// Relies on xid::Id's FromStr impl, which accepts exactly the twenty-char
/// base32-hex form and returns the twelve bytes.
#[verifier::external_body]
fn xid_decode(s: &str) -> (r: Option<Vec<u8>>)
    ensures
        match r {
            Some(b) => b@.len() == 12 && xid_parse_of(s@) == Some(b@),
            None => xid_parse_of(s@) is None,
        },
{
    match s.parse::<xid::Id>() {
        Ok(id) => Some(id.0.to_vec()),
        Err(_) => None,
    }
}

/// The hyphenated text form of a 16-byte uuid: thirty-six characters. The
/// form depends on the bytes alone.
pub uninterp spec fn uuid_str_of(b: Seq<u8>) -> Seq<char>;

/// What uuid parsing reads back from a string: sixteen bytes, or nothing.
pub uninterp spec fn uuid_parse_of(s: Seq<char>) -> Option<Seq<u8>>;

/// Relies on uuid::Uuid's Display impl, which writes the hyphenated
/// thirty-six-character form of the sixteen bytes.
#[verifier::external_body]
fn uuid_encode(b: &Vec<u8>) -> (r: String)
    requires
        b@.len() == 16,
    ensures
        r@ == uuid_str_of(b@),
        r@.len() == 36,
{
    let mut raw = [0u8; 16];
    raw.copy_from_slice(&b[..]);
    uuid::Uuid::from_bytes(raw).to_string()
}

/// Relies on uuid::Uuid::parse_str, which reads the accepted uuid text
/// forms back into sixteen bytes.
#[verifier::external_body]
fn uuid_decode(s: &str) -> (r: Option<Vec<u8>>)
    ensures
        match r {
            Some(b) => b@.len() == 16 && uuid_parse_of(s@) == Some(b@),
            None => uuid_parse_of(s@) is None,
        },
{
    match uuid::Uuid::parse_str(s) {
        Ok(u) => Some(u.as_bytes().to_vec()),
        Err(_) => None,
    }
}

/// A group or creation id: twelve bytes.
pub struct Xid {
    bytes: Vec<u8>,
}

impl View for Xid {
    type V = Seq<u8>;

    closed spec fn view(&self) -> Seq<u8> {
        self.bytes@
    }
}

impl Xid {
    pub open spec fn wf(&self) -> bool {
        self@.len() == 12
    }

    pub fn from_bytes(bytes: Vec<u8>) -> (r: Option<Xid>)
        ensures
            match r {
                Some(x) => bytes@.len() == 12 && x@ == bytes@,
                None => bytes@.len() != 12,
            },
    {
        if bytes.len() == 12 {
            Some(Xid { bytes })
        } else {
            None
        }
    }

    pub fn to_bytes(&self) -> (r: Vec<u8>)
        ensures
            r@ == self@,
    {
        let mut out: Vec<u8> = Vec::new();
        let n = self.bytes.len();
        for i in 0..n
            invariant
                n == self.bytes@.len(),
                out@ == self.bytes@.subrange(0, i as int),
        {
            out.push(self.bytes[i]);
            proof {
                assert(out@ =~= self.bytes@.subrange(0, i as int + 1));
            }
        }
        proof {
            assert(self.bytes@.subrange(0, n as int) =~= self.bytes@);
        }
        out
    }

    /// The twenty-character text form.
    pub fn to_string(&self) -> (r: String)
        requires
            self.wf(),
        ensures
            r@ == xid_str_of(self@),
    {
        xid_encode(&self.bytes)
    }

    pub fn eq_id(&self, other: &Xid) -> (r: bool)
        ensures
            r == (self@ == other@),
    {
        if self.bytes.len() != other.bytes.len() {
            return false;
        }
        let n = self.bytes.len();
        for i in 0..n
            invariant
                n == self.bytes@.len() == other.bytes@.len(),
                forall|k: int| 0 <= k < i ==> self.bytes@[k] == other.bytes@[k],
        {
            if self.bytes[i] != other.bytes[i] {
                return false;
            }
        }
        proof {
            assert(self.bytes@ =~= other.bytes@);
        }
        true
    }
}

impl Xid {
    /// The all-zero id.
    pub fn zero() -> (r: Xid)
        ensures
            r@ == zero_id_bytes(),
            r.wf(),
    {
        let mut bytes: Vec<u8> = Vec::new();
        let mut i: usize = 0;
        while i < 12
            invariant
                i <= 12,
                bytes@.len() == i,
                forall|k: int| 0 <= k < i ==> bytes@[k] == 0u8,
            decreases 12 - i,
        {
            bytes.push(0u8);
            i = i + 1;
        }
        proof {
            assert(bytes@ =~= zero_id_bytes());
        }
        Xid { bytes }
    }
}

impl Clone for Xid {
    fn clone(&self) -> (r: Self)
        ensures
            r@ == self@,
    {
        Xid { bytes: self.to_bytes() }
    }
}

/// The twelve zero bytes: the all-zero id used as a default.
pub open spec fn zero_id_bytes() -> Seq<u8> {
    Seq::new(12, |i: int| 0u8)
}

/// Reads an id from its text form, accepting exactly the strings that are
/// the text form of some id: the parse must encode back to the input.
pub fn xid_from_str(s: &str) -> (r: Result<Xid, HTTPError>)
    ensures
        match r {
            Ok(x) => x.wf() && xid_parse_of(s@) == Some(x@) && xid_str_of(x@) == s@,
            Err(e) => e.code == 400 && (xid_parse_of(s@) is None || (xid_parse_of(s@) matches Some(
                b,
            ) && xid_str_of(b) != s@)),
        },
{
    match xid_decode(s) {
        None => Err(HTTPError::new(400, String::from_str("invalid id"))),
        Some(bytes) => {
            let back = xid_encode(&bytes);
            let bv = str_chars(back.as_str());
            let sv = str_chars(s);
            if chars_eq(&bv, &sv) {
                Ok(Xid { bytes })
            } else {
                Err(HTTPError::new(400, String::from_str("invalid id")))
            }
        },
    }
}

fn chars_eq(a: &Vec<char>, b: &Vec<char>) -> (r: bool)
    ensures
        r == (a@ == b@),
{
    if a.len() != b.len() {
        return false;
    }
    let n = a.len();
    for i in 0..n
        invariant
            n == a@.len() == b@.len(),
            forall|k: int| 0 <= k < i ==> a@[k] == b@[k],
    {
        if a[i] != b[i] {
            return false;
        }
    }
    proof {
        assert(a@ =~= b@);
    }
    true
}

/// A point id: sixteen bytes.
pub struct PointUuid {
    bytes: Vec<u8>,
}

impl View for PointUuid {
    type V = Seq<u8>;

    closed spec fn view(&self) -> Seq<u8> {
        self.bytes@
    }
}

impl PointUuid {
    pub open spec fn wf(&self) -> bool {
        self@.len() == 16
    }

    pub fn from_bytes(bytes: Vec<u8>) -> (r: Option<PointUuid>)
        ensures
            match r {
                Some(x) => bytes@.len() == 16 && x@ == bytes@,
                None => bytes@.len() != 16,
            },
    {
        if bytes.len() == 16 {
            Some(PointUuid { bytes })
        } else {
            None
        }
    }

    /// The hyphenated text form.
    pub fn to_string(&self) -> (r: String)
        requires
            self.wf(),
        ensures
            r@ == uuid_str_of(self@),
    {
        uuid_encode(&self.bytes)
    }

    /// Reads a point id back from its text form.
    pub fn from_str(s: &str) -> (r: Option<PointUuid>)
        ensures
            match r {
                Some(x) => x.wf() && uuid_parse_of(s@) == Some(x@),
                None => uuid_parse_of(s@) is None,
            },
    {
        match uuid_decode(s) {
            Some(bytes) => Some(PointUuid { bytes }),
            None => None,
        }
    }
}

impl Clone for PointUuid {
    fn clone(&self) -> (r: Self)
        ensures
            r@ == self@,
    {
        let mut out: Vec<u8> = Vec::new();
        let n = self.bytes.len();
        for i in 0..n
            invariant
                n == self.bytes@.len(),
                out@ == self.bytes@.subrange(0, i as int),
        {
            out.push(self.bytes[i]);
            proof {
                assert(out@ =~= self.bytes@.subrange(0, i as int + 1));
            }
        }
        proof {
            assert(self.bytes@.subrange(0, n as int) =~= self.bytes@);
        }
        PointUuid { bytes: out }
    }
}

} // verus!
