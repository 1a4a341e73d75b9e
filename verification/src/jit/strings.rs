//! Byte strings that compiled routines build: concatenation, comparison,
//! slicing with negative positions counted from the end, and single-byte
//! indexing. An absent string (a null handle) behaves as described at each
//! operation.

use vstd::prelude::*;

verus! {

/// A byte string.
pub struct CausmString {
    pub data: Vec<u8>,
}

pub open spec fn bytes_of(s: Option<&CausmString>) -> Seq<u8> {
    match s {
        Some(t) => t.data@,
        None => Seq::empty(),
    }
}

/// A position of a slice: negative counts from the end, then clamped into
/// `0..=len`.
pub open spec fn slice_pos(i: int, len: int) -> int {
    let j = if i < 0 { i + len } else { i };
    if j < 0 {
        0
    } else if j > len {
        len
    } else {
        j
    }
}

/// The bytes a slice from `start` to `end` takes; empty when the end lies
/// before the start.
pub open spec fn slice_spec(b: Seq<u8>, start: int, end: int) -> Seq<u8> {
    let s = slice_pos(start, b.len() as int);
    let e = slice_pos(end, b.len() as int);
    if e <= s {
        Seq::empty()
    } else {
        b.subrange(s, e)
    }
}

fn copy_bytes(v: &Vec<u8>, out: &mut Vec<u8>, from: usize, to: usize)
    requires
        from <= to <= v@.len(),
    ensures
        final(out)@ == old(out)@ + v@.subrange(from as int, to as int),
{
    let mut i = from;
    while i < to
        invariant
            from <= i <= to,
            to <= v@.len(),
            out@ == old(out)@ + v@.subrange(from as int, i as int),
        decreases to - i,
    {
        out.push(v[i]);
        i = i + 1;
        assert(out@ =~= old(out)@ + v@.subrange(from as int, i as int));
    }
}

impl CausmString {
    /// A string holding a copy of `bytes`.
    pub fn new(bytes: &[u8]) -> (s: Self)
        ensures
            s.data@ == bytes@,
    {
        let mut data: Vec<u8> = Vec::new();
        let mut i: usize = 0;
        while i < bytes.len()
            invariant
                i <= bytes@.len(),
                data@ == bytes@.subrange(0, i as int),
            decreases bytes@.len() - i,
        {
            data.push(bytes[i]);
            i = i + 1;
            assert(data@ =~= bytes@.subrange(0, i as int));
        }
        assert(bytes@.subrange(0, bytes@.len() as int) =~= bytes@);
        CausmString { data }
    }

    pub fn len(&self) -> (n: usize)
        ensures
            n == self.data@.len(),
    {
        self.data.len()
    }

    /// The bytes of `lhs` followed by those of `rhs`; an absent string
    /// counts as empty.
    pub fn concat(lhs: Option<&CausmString>, rhs: Option<&CausmString>) -> (s: CausmString)
        requires
            bytes_of(lhs).len() + bytes_of(rhs).len() <= usize::MAX,
        ensures
            s.data@ == bytes_of(lhs) + bytes_of(rhs),
    {
        let mut data: Vec<u8> = Vec::new();
        match lhs {
            Some(l) => copy_bytes(&l.data, &mut data, 0, l.data.len()),
            None => {},
        }
        match rhs {
            Some(r) => copy_bytes(&r.data, &mut data, 0, r.data.len()),
            None => {},
        }
        proof {
            match lhs {
                Some(l) => assert(l.data@.subrange(0, l.data@.len() as int) =~= l.data@),
                None => {},
            }
            match rhs {
                Some(r) => assert(r.data@.subrange(0, r.data@.len() as int) =~= r.data@),
                None => {},
            }
        }
        assert(data@ =~= bytes_of(lhs) + bytes_of(rhs));
        CausmString { data }
    }

    /// 1 when both strings are absent or both hold the same bytes, else 0.
    pub fn compare(lhs: Option<&CausmString>, rhs: Option<&CausmString>) -> (r: i64)
        ensures
            r == match (lhs, rhs) {
                (None, None) => 1i64,
                (Some(a), Some(b)) => if a.data@ == b.data@ { 1i64 } else { 0i64 },
                _ => 0i64,
            },
    {
        match (lhs, rhs) {
            (None, None) => 1,
            (Some(a), Some(b)) => {
                if a.data.len() != b.data.len() {
                    assert(a.data@.len() != b.data@.len());
                    return 0;
                }
                let mut i: usize = 0;
                while i < a.data.len()
                    invariant
                        lhs == Some(a),
                        rhs == Some(b),
                        a.data@.len() == b.data@.len(),
                        i <= a.data@.len(),
                        forall|j: int| 0 <= j < i ==> a.data@[j] == b.data@[j],
                    decreases a.data@.len() - i,
                {
                    if a.data[i] != b.data[i] {
                        assert(a.data@[i as int] != b.data@[i as int]);
                        assert(a.data@ != b.data@);
                        return 0;
                    }
                    i = i + 1;
                }
                assert(a.data@ =~= b.data@);
                1
            },
            _ => 0,
        }
    }

    /// The bytes from `start` up to `end`, positions counted from the end
    /// when negative and clamped into the string; an absent string gives an
    /// empty one.
    pub fn slice(s: Option<&CausmString>, start: isize, end: isize) -> (r: CausmString)
        requires
            bytes_of(s).len() <= isize::MAX,
        ensures
            r.data@ == slice_spec(bytes_of(s), start as int, end as int),
    {
        match s {
            None => CausmString { data: Vec::new() },
            Some(t) => {
                let len = t.data.len() as isize;
                let mut st = if start < 0 { start + len } else { start };
                let mut en = if end < 0 { end + len } else { end };
                if st < 0 {
                    st = 0;
                } else if st > len {
                    st = len;
                }
                if en < 0 {
                    en = 0;
                } else if en > len {
                    en = len;
                }
                if en < st {
                    en = st;
                }
                let mut data: Vec<u8> = Vec::new();
                if st < en {
                    copy_bytes(&t.data, &mut data, st as usize, en as usize);
                }
                assert(data@ =~= slice_spec(t.data@, start as int, end as int));
                CausmString { data }
            },
        }
    }

    /// The single byte at `index`.
    pub fn index(&self, index: usize) -> (r: CausmString)
        requires
            index < self.data@.len(),
        ensures
            r.data@ == seq![self.data@[index as int]],
    {
        let mut data: Vec<u8> = Vec::new();
        data.push(self.data[index]);
        assert(data@ =~= seq![self.data@[index as int]]);
        CausmString { data }
    }
}

/// A slice over the whole string gives it back, and comparing a string with
/// itself gives 1.
pub proof fn law_full_slice(b: Seq<u8>)
    requires
        b.len() <= isize::MAX,
    ensures
        slice_spec(b, 0, b.len() as int) == b,
        slice_spec(b, 0, -1) == (if b.len() <= 1 { Seq::<u8>::empty() } else { b.subrange(0, b.len() - 1) }),
{
    assert(b.subrange(0, b.len() as int) =~= b);
}

/// The text that std's `str::from_utf8` decodes from `b`, or nothing when
/// `b` is not valid UTF-8.
pub uninterp spec fn utf8_decoded(b: Seq<u8>) -> Option<Seq<char>>;

/// Decodes bytes as UTF-8. Calls std's `str::from_utf8`, whose result is a
/// function of the bytes alone and is named, not spelled out, here.
#[verifier::external_body]
fn decode_utf8<'a>(bytes: &'a [u8]) -> (r: Option<&'a str>)
    ensures
        match r {
            Some(t) => utf8_decoded(bytes@) == Some(t@),
            None => utf8_decoded(bytes@) is None,
        },
{
    match std::str::from_utf8(bytes) {
        Ok(t) => Some(t),
        Err(_) => None,
    }
}

impl CausmString {
    /// The string's bytes as text; empty when they are not valid UTF-8.
    pub fn as_str(&self) -> (r: &str)
        ensures
            r@ == match utf8_decoded(self.data@) {
                Some(t) => t,
                None => Seq::empty(),
            },
    {
        match decode_utf8(self.data.as_slice()) {
            Some(t) => t,
            None => {
                let e = "";
                proof {
                    reveal_strlit("");
                }
                e
            },
        }
    }
}

} // verus!
