//! Variable length records: the metadata blobs of a LAS file.

use crate::endian::{le_u16, read_u16_at};
use crate::error::Error;
use vstd::prelude::*;
use vstd::string::StringSliceAdditionalSpecFns;

verus! {

/// The number of bytes of a record's header before its data.
pub const VLR_HEADER_BYTES: usize = 54;

/// The number of bytes of an extended record's header before its data.
pub const EVLR_HEADER_BYTES: u64 = 60;

/// The text that a lossy UTF-8 decoding makes of the bytes.
pub uninterp spec fn utf8_lossy(bytes: Seq<u8>) -> Seq<char>;

/// Calls `String::from_utf8_lossy` on the bytes and takes the text as an
/// owned string; the result depends on the bytes alone.
#[verifier::external_body]
fn decode_lossy(bytes: &[u8]) -> (text: String)
    ensures
        text@ == utf8_lossy(bytes@),
{
    String::from_utf8_lossy(bytes).into_owned()
}

/// The bytes without the NUL bytes at their end.
pub open spec fn trimmed(s: Seq<u8>) -> Seq<u8>
    decreases s.len(),
{
    if s.len() > 0 && s.last() == 0 {
        trimmed(s.drop_last())
    } else {
        s
    }
}

/// The text as `n` bytes, cut or filled up with NUL bytes.
pub open spec fn padded(text: Seq<u8>, n: nat) -> Seq<u8> {
    Seq::new(
        n,
        |i: int|
            if i < text.len() {
                text[i]
            } else {
                0u8
            },
    )
}

/// The lower-case form of an ASCII letter; any other byte itself.
pub open spec fn lower(b: u8) -> u8 {
    if 65 <= b <= 90 {
        (b + 32) as u8
    } else {
        b
    }
}

/// The bytes spell the text, where upper and lower case of ASCII count as
/// the same.
pub open spec fn spells(bytes: Seq<u8>, text: Seq<u8>) -> bool {
    &&& bytes.len() == text.len()
    &&& forall|i: int| 0 <= i < bytes.len() ==> lower(#[trigger] bytes[i]) == text[i]
}

/// The number of bytes that are left when the NUL bytes at the end are cut.
pub fn trimmed_len(bytes: &[u8]) -> (n: usize)
    ensures
        n <= bytes@.len(),
        bytes@.subrange(0, n as int) == trimmed(bytes@),
{
    let mut n: usize = bytes.len();
    assert(bytes@.subrange(0, n as int) =~= bytes@);
    while n > 0 && bytes[n - 1] == 0
        invariant
            n <= bytes@.len(),
            trimmed(bytes@.subrange(0, n as int)) == trimmed(bytes@),
        decreases n,
    {
        proof {
            let s = bytes@.subrange(0, n as int);
            assert(s.drop_last() =~= bytes@.subrange(0, n - 1));
        }
        n = n - 1;
    }
    n
}

/// Whether the bytes from `from` up to `to` spell the text, ignoring ASCII
/// case.
pub fn range_spells(name: &[u8], from: usize, to: usize, text: &str) -> (r: bool)
    requires
        from <= to <= name@.len(),
    ensures
        r == spells(name@.subrange(from as int, to as int), text.spec_bytes()),
{
    let t = text.as_bytes();
    if t.len() != to - from {
        return false;
    }
    let mut i: usize = 0;
    while i < to - from
        invariant
            from <= to <= name@.len(),
            i <= to - from,
            t@.len() == to - from,
            t@ == text.spec_bytes(),
            forall|j: int| 0 <= j < i ==> lower(#[trigger] name@[from + j]) == t@[j],
        decreases to - from - i,
    {
        let b = name[from + i];
        let l = if 65 <= b && b <= 90 {
            b + 32
        } else {
            b
        };
        if l != t[i] {
            assert(name@.subrange(from as int, to as int)[i as int] == name@[from + i]);
            return false;
        }
        i = i + 1;
    }
    assert forall|j: int| 0 <= j < to - from implies lower(
        #[trigger] name@.subrange(from as int, to as int)[j],
    ) == t@[j] by {
        assert(name@.subrange(from as int, to as int)[j] == name@[from + j]);
    }
    true
}

/// Whether the first `n` bytes spell the text, ignoring ASCII case.
pub fn prefix_spells(bytes: &[u8], n: usize, text: &str) -> (r: bool)
    requires
        n <= bytes@.len(),
    ensures
        r == spells(bytes@.subrange(0, n as int), text.spec_bytes()),
{
    range_spells(bytes, 0, n, text)
}

/// The text as an array of sixteen bytes, cut or filled up with NUL bytes.
pub fn text16(text: &str) -> (a: [u8; 16])
    ensures
        a@ == padded(text.spec_bytes(), 16),
{
    let t = text.as_bytes();
    let mut a = [0u8;16];
    let mut i: usize = 0;
    while i < 16 && i < t.len()
        invariant
            i <= 16,
            i <= t@.len(),
            a@.len() == 16,
            t@ == text.spec_bytes(),
            forall|j: int| 0 <= j < i ==> a@[j] == t@[j],
            forall|j: int| i <= j < 16 ==> a@[j] == 0,
        decreases 16 - i,
    {
        a[i] = t[i];
        i = i + 1;
    }
    assert(a@ =~= padded(text.spec_bytes(), 16));
    a
}

/// The text as an array of thirty-two bytes, cut or filled up with NUL bytes.
pub fn text32(text: &str) -> (a: [u8; 32])
    ensures
        a@ == padded(text.spec_bytes(), 32),
{
    let t = text.as_bytes();
    let mut a = [0u8;32];
    let mut i: usize = 0;
    while i < 32 && i < t.len()
        invariant
            i <= 32,
            i <= t@.len(),
            a@.len() == 32,
            t@ == text.spec_bytes(),
            forall|j: int| 0 <= j < i ==> a@[j] == t@[j],
            forall|j: int| i <= j < 32 ==> a@[j] == 0,
        decreases 32 - i,
    {
        a[i] = t[i];
        i = i + 1;
    }
    assert(a@ =~= padded(text.spec_bytes(), 32));
    a
}

/// A variable length record.
#[derive(Debug)]
pub struct Vlr {
    /// Who defined the record, filled up with NUL bytes.
    pub user_id: [u8; 16],
    /// Which of that user's records this is.
    pub record_id: u16,
    /// A description, filled up with NUL bytes.
    pub description: [u8; 32],
    /// The payload.
    pub data: Vec<u8>,
}

impl Vlr {
    /// The record that the bytes from `pos` on hold, read as a record with a
    /// header of 54 bytes: two reserved bytes, the user id, the record id,
    /// the length of the data, the description, and then the data.
    pub open spec fn spec_parse(buf: Seq<u8>, pos: int) -> (Seq<u8>, int, Seq<u8>, Seq<u8>) {
        let length = le_u16(buf.subrange(pos + 20, pos + 22));
        (
            buf.subrange(pos + 2, pos + 18),
            le_u16(buf.subrange(pos + 18, pos + 20)),
            buf.subrange(pos + 22, pos + 54),
            buf.subrange(pos + 54, pos + 54 + length),
        )
    }

    /// The parts of the record: user id, record id, description, data.
    pub open spec fn parts(self) -> (Seq<u8>, int, Seq<u8>, Seq<u8>) {
        (self.user_id@, self.record_id as int, self.description@, self.data@)
    }

    /// Where the record that starts at `pos` ends.
    pub open spec fn spec_end(buf: Seq<u8>, pos: int) -> int {
        pos + 54 + le_u16(buf.subrange(pos + 20, pos + 22))
    }

    /// Reads the record that starts at `pos`, and says where it ends. Fails
    /// where the bytes end before the record does.
    pub fn read_from(buf: &[u8], pos: usize) -> (r: Result<(Vlr, usize), Error>)
        ensures
            match r {
                Ok((vlr, end)) => {
                    &&& pos + 54 <= buf@.len()
                    &&& end == Vlr::spec_end(buf@, pos as int)
                    &&& end <= buf@.len()
                    &&& vlr.parts() == Vlr::spec_parse(buf@, pos as int)
                },
                Err(e) => {
                    &&& e == Error::CorruptMetadata
                    &&& (pos + 54 > buf@.len() || Vlr::spec_end(buf@, pos as int) > buf@.len())
                },
            },
    {
        if buf.len() < VLR_HEADER_BYTES || pos > buf.len() - VLR_HEADER_BYTES {
            return Err(Error::CorruptMetadata);
        }
        let record_id = read_u16_at(buf, pos + 18);
        let length = read_u16_at(buf, pos + 20) as usize;
        let start = pos + VLR_HEADER_BYTES;
        if buf.len() - start < length {
            return Err(Error::CorruptMetadata);
        }
        let mut user_id = [0u8;16];
        let mut i: usize = 0;
        while i < 16
            invariant
                i <= 16,
                pos + 54 <= buf@.len() <= usize::MAX,
                user_id@.len() == 16,
                forall|j: int| 0 <= j < i ==> user_id@[j] == buf@[pos + 2 + j],
            decreases 16 - i,
        {
            user_id[i] = buf[pos + 2 + i];
            i = i + 1;
        }
        let mut description = [0u8;32];
        let mut i: usize = 0;
        while i < 32
            invariant
                i <= 32,
                pos + 54 <= buf@.len() <= usize::MAX,
                description@.len() == 32,
                forall|j: int| 0 <= j < i ==> description@[j] == buf@[pos + 22 + j],
            decreases 32 - i,
        {
            description[i] = buf[pos + 22 + i];
            i = i + 1;
        }
        let mut data: Vec<u8> = Vec::with_capacity(length);
        let mut i: usize = 0;
        while i < length
            invariant
                i <= length,
                start + length <= buf@.len() <= usize::MAX,
                data@ == buf@.subrange(start as int, start + i),
            decreases length - i,
        {
            data.push(buf[start + i]);
            assert(data@ =~= buf@.subrange(start as int, start + i + 1));
            i = i + 1;
        }
        assert(user_id@ =~= buf@.subrange(pos + 2, pos + 18));
        assert(description@ =~= buf@.subrange(pos + 22, pos + 54));
        Ok((Vlr { user_id, record_id, description, data }, start + length))
    }

    /// The records that stand one after the other from a position on.
    pub open spec fn spec_parse_all(buf: Seq<u8>, pos: int, count: nat) -> Seq<
        (Seq<u8>, int, Seq<u8>, Seq<u8>),
    >
        decreases count,
    {
        if count == 0 {
            Seq::empty()
        } else {
            seq![Vlr::spec_parse(buf, pos)] + Vlr::spec_parse_all(
                buf,
                Vlr::spec_end(buf, pos),
                (count - 1) as nat,
            )
        }
    }

    /// Where the last of the records ends that stand one after the other
    /// from a position on.
    pub open spec fn spec_end_all(buf: Seq<u8>, pos: int, count: nat) -> int
        decreases count,
    {
        if count == 0 {
            pos
        } else {
            Vlr::spec_end_all(buf, Vlr::spec_end(buf, pos), (count - 1) as nat)
        }
    }

    /// The bytes hold `count` records one after the other from a position
    /// on.
    pub open spec fn spec_holds_all(buf: Seq<u8>, pos: int, count: nat) -> bool
        decreases count,
    {
        count == 0 || (pos + 54 <= buf.len() && Vlr::spec_end(buf, pos) <= buf.len()
            && Vlr::spec_holds_all(buf, Vlr::spec_end(buf, pos), (count - 1) as nat))
    }

    /// Reads the `count` records that follow a header, one after the other
    /// from `pos` on, and says where the last one ends. Fails where the bytes
    /// end before the records do, or before `pos`.
    pub fn read_all(buf: &[u8], pos: usize, count: u32) -> (r: Result<(Vec<Vlr>, usize), Error>)
        ensures
            match r {
                Ok((records, end)) => {
                    &&& pos <= buf@.len()
                    &&& Vlr::spec_holds_all(buf@, pos as int, count as nat)
                    &&& records@.len() == count
                    &&& Seq::new(records@.len(), |i: int| records@[i].parts())
                        == Vlr::spec_parse_all(buf@, pos as int, count as nat)
                    &&& end == Vlr::spec_end_all(buf@, pos as int, count as nat)
                    &&& end <= buf@.len()
                },
                Err(e) => e == Error::CorruptMetadata && (pos > buf@.len()
                    || !Vlr::spec_holds_all(buf@, pos as int, count as nat)),
            },
    {
        if pos > buf.len() {
            return Err(Error::CorruptMetadata);
        }
        let mut records: Vec<Vlr> = Vec::new();
        let mut at: usize = pos;
        let mut left: u32 = count;
        assert(Seq::new(records@.len(), |i: int| records@[i].parts()) + Vlr::spec_parse_all(
            buf@,
            at as int,
            left as nat,
        ) =~= Vlr::spec_parse_all(buf@, pos as int, count as nat));
        while left > 0
            invariant
                at <= buf@.len(),
                records@.len() + left == count,
                Seq::new(records@.len(), |i: int| records@[i].parts()) + Vlr::spec_parse_all(
                    buf@,
                    at as int,
                    left as nat,
                ) == Vlr::spec_parse_all(buf@, pos as int, count as nat),
                Vlr::spec_end_all(buf@, at as int, left as nat) == Vlr::spec_end_all(
                    buf@,
                    pos as int,
                    count as nat,
                ),
                Vlr::spec_holds_all(buf@, at as int, left as nat) == Vlr::spec_holds_all(
                    buf@,
                    pos as int,
                    count as nat,
                ),
            decreases left,
        {
            let ghost before = Seq::new(records@.len(), |i: int| records@[i].parts());
            match Vlr::read_from(buf, at) {
                Ok((vlr, end)) => {
                    records.push(vlr);
                    proof {
                        assert(Seq::new(records@.len(), |i: int| records@[i].parts()) =~= before
                            + seq![Vlr::spec_parse(buf@, at as int)]);
                        assert(Seq::new(records@.len(), |i: int| records@[i].parts())
                            + Vlr::spec_parse_all(buf@, end as int, (left - 1) as nat) =~= before
                            + Vlr::spec_parse_all(buf@, at as int, left as nat));
                    }
                    at = end;
                    left = left - 1;
                },
                Err(e) => {
                    return Err(e);
                },
            }
        }
        assert(Seq::new(records@.len(), |i: int| records@[i].parts()) + Seq::empty()
            =~= Seq::new(records@.len(), |i: int| records@[i].parts()));
        Ok((records, at))
    }

    /// The user id as text: the bytes before the NUL bytes at the end,
    /// decoded as UTF-8 with a replacement character for what is not.
    pub fn user_id(&self) -> (text: String)
        ensures
            text@ == utf8_lossy(trimmed(self.user_id@)),
    {
        let n = trimmed_len(self.user_id.as_slice());
        decode_lossy(vstd::slice::slice_subrange(self.user_id.as_slice(), 0, n))
    }

    /// The description as text: the bytes before the NUL bytes at the end,
    /// decoded as UTF-8 with a replacement character for what is not.
    pub fn description(&self) -> (text: String)
        ensures
            text@ == utf8_lossy(trimmed(self.description@)),
    {
        let n = trimmed_len(self.description.as_slice());
        decode_lossy(vstd::slice::slice_subrange(self.description.as_slice(), 0, n))
    }

    /// Whether the record is the one that the user id `user`, written in
    /// lower case, and the record id name. Case does not count in the
    /// record's own user id.
    pub fn is(&self, user: &str, record_id: u16) -> (r: bool)
        ensures
            r == (self.record_id == record_id && spells(
                trimmed(self.user_id@),
                user.spec_bytes(),
            )),
    {
        let n = trimmed_len(self.user_id.as_slice());
        self.record_id == record_id && prefix_spells(self.user_id.as_slice(), n, user)
    }

    /// A copy of the record.
    pub fn duplicate(&self) -> (copy: Vlr)
        ensures
            copy.parts() == self.parts(),
    {
        Vlr {
            user_id: self.user_id,
            record_id: self.record_id,
            description: self.description,
            data: self.data.clone(),
        }
    }
}

} // verus!
