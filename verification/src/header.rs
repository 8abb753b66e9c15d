use crate::digest::{sha256, sha256_of};
use vstd::prelude::*;
use vstd::string::*;
use vstd::utf8::*;

verus! {

// Byte offsets of the fields inside the fixed 166-byte header.
const PACKET_NUMBER_BEGIN: usize = 0;
const HEADER_VERSION_BEGIN: usize = 2;
const SOURCE_USERNAME_BEGIN: usize = 3;
const DEST_USERNAME_BEGIN: usize = 35;
const MESSAGE_TYPE_BEGIN: usize = 67;
const DATA_PACKET_LENGTH_BEGIN: usize = 68;
const DATA_PACKET_CHECKSUM_BEGIN: usize = 70;
const FUTURE_USE_BEGIN: usize = 102;
const HEADER_CHECKSUM_BEGIN: usize = 134;
// Maximum username length in bytes.
const USERNAME_LEN: usize = 32;

/// The value of the big-endian 16-bit integer stored at offset `i`.
pub open spec fn spec_u16_at(s: Seq<u8>, i: int) -> int {
    s[i] * 256 + s[i + 1]
}

/// The result of writing `w` into `s` starting at offset `b`.
pub open spec fn spec_write_at(s: Seq<u8>, b: int, w: Seq<u8>) -> Seq<u8> {
    Seq::new(
        s.len(),
        |i: int|
            if b <= i < b + w.len() {
                w[i - b]
            } else {
                s[i]
            },
    )
}

/// The result of writing the name bytes `w` into `s` at offset `b`,
/// with a NUL terminator after them when they are shorter than the field.
pub open spec fn spec_write_name(s: Seq<u8>, b: int, w: Seq<u8>) -> Seq<u8> {
    Seq::new(
        s.len(),
        |i: int|
            if b <= i < b + w.len() {
                w[i - b]
            } else if i == b + w.len() && w.len() < 32 {
                0u8
            } else {
                s[i]
            },
    )
}

pub open spec fn spec_packet_number(s: Seq<u8>) -> int {
    spec_u16_at(s, 0)
}

pub open spec fn spec_version(s: Seq<u8>) -> u8 {
    s[2]
}

pub open spec fn spec_message_type(s: Seq<u8>) -> u8 {
    s[67]
}

pub open spec fn spec_data_length(s: Seq<u8>) -> int {
    spec_u16_at(s, 68)
}

/// The 32-byte name field starting at offset `b`.
pub open spec fn field32(s: Seq<u8>, b: int) -> Seq<u8> {
    s.subrange(b, b + 32)
}

/// The region of the header covered by the header checksum.
pub open spec fn header_body(s: Seq<u8>) -> Seq<u8> {
    s.subrange(0, 134)
}

pub open spec fn stored_header_checksum(s: Seq<u8>) -> Seq<u8> {
    s.subrange(134, 166)
}

pub open spec fn stored_data_checksum(s: Seq<u8>) -> Seq<u8> {
    s.subrange(70, 102)
}

/// The stored header checksum is the digest of the checksummed region.
pub open spec fn header_checksum_valid(s: Seq<u8>) -> bool {
    stored_header_checksum(s) == sha256_of(header_body(s))
}

/// The stored data checksum is the digest of `body`.
pub open spec fn data_checksum_matches(s: Seq<u8>, body: Seq<u8>) -> bool {
    stored_data_checksum(s) == sha256_of(body)
}

/// Position of the first NUL byte in `f`, or `f.len()` if there is none.
pub open spec fn nul_index(f: Seq<u8>) -> int
    decreases f.len(),
{
    if f.len() == 0 {
        0
    } else if f[0] == 0 {
        0
    } else {
        1 + nul_index(f.subrange(1, f.len() as int))
    }
}

/// The logical name stored in a 32-byte field: the bytes before the
/// first NUL, or the whole field when no byte is NUL.
pub open spec fn name_prefix(f: Seq<u8>) -> Seq<u8> {
    f.take(nul_index(f))
}

pub open spec fn spec_source_name(s: Seq<u8>) -> Seq<u8> {
    name_prefix(field32(s, 3))
}

pub open spec fn spec_dest_name(s: Seq<u8>) -> Seq<u8> {
    name_prefix(field32(s, 35))
}

pub proof fn lemma_nul_index_bounds(f: Seq<u8>)
    ensures
        0 <= nul_index(f) <= f.len(),
        forall|i: int| 0 <= i < nul_index(f) ==> f[i] != 0,
        nul_index(f) < f.len() ==> f[nul_index(f)] == 0,
    decreases f.len(),
{
    if f.len() == 0 {
    } else if f[0] == 0 {
    } else {
        let g = f.subrange(1, f.len() as int);
        lemma_nul_index_bounds(g);
        assert forall|i: int| 0 <= i < nul_index(f) implies f[i] != 0 by {
            if i > 0 {
                assert(f[i] == g[i - 1]);
            }
        }
        if nul_index(f) < f.len() {
            assert(f[nul_index(f)] == g[nul_index(g)]);
        }
    }
}

/// `nul_index` is the only position with a NUL-free prefix that ends at a
/// NUL or at the end of the field.
pub proof fn lemma_nul_index_unique(f: Seq<u8>, j: int)
    requires
        0 <= j <= f.len(),
        forall|i: int| 0 <= i < j ==> f[i] != 0,
        j < f.len() ==> f[j] == 0,
    ensures
        nul_index(f) == j,
    decreases f.len(),
{
    if f.len() == 0 {
    } else if f[0] == 0 {
        if j > 0 {
            assert(f[0] != 0);
        }
    } else {
        assert(j >= 1) by {
            if j == 0 {
                assert(f[0] == 0);
            }
        }
        let g = f.subrange(1, f.len() as int);
        assert forall|i: int| 0 <= i < j - 1 implies g[i] != 0 by {
            assert(g[i] == f[i + 1]);
        }
        if j - 1 < g.len() {
            assert(g[j - 1] == f[j]);
        }
        lemma_nul_index_unique(g, j - 1);
    }
}

/// Relies on String::from_utf8: it succeeds exactly on valid UTF-8 input
/// and returns the string whose byte encoding is that input.
#[verifier::external_body]
fn string_from_utf8(v: Vec<u8>) -> (r: Option<String>)
    ensures
        valid_utf8(v@) <==> r is Some,
        r matches Some(s) ==> encode_utf8(s@) == v@,
{
    match String::from_utf8(v) {
        Ok(s) => Some(s),
        Err(_) => None,
    }
}

/// A fixed-layout wire header, kept as the raw 166 bytes it occupies on
/// the stream; all accessors read and write this buffer directly.
#[derive(Clone, Copy)]
pub struct MessageHeader(pub [u8; 166]);

impl MessageHeader {
    /// Create a new, all-zero message header.
    pub fn new() -> (r: MessageHeader)
        ensures
            r.0@ == Seq::new(166, |i: int| 0u8),
    {
        let r = MessageHeader([0u8; 166]);
        proof {
            assert(r.0@ =~= Seq::new(166, |i: int| 0u8));
        }
        r
    }

    /// Zero the whole header.
    pub fn clear(&mut self)
        ensures
            final(self).0@ == Seq::new(166, |i: int| 0u8),
    {
        self.0 = [0u8; 166];
        proof {
            assert(self.0@ =~= Seq::new(166, |i: int| 0u8));
        }
    }

    /// Store `num` big-endian at `header_idx`.
    fn set_u16_at_index(&mut self, num: u16, header_idx: usize)
        requires
            header_idx + 2 <= 166,
        ensures
            final(self).0@ == spec_write_at(
                old(self).0@,
                header_idx as int,
                seq![(num / 256) as u8, (num % 256) as u8],
            ),
            spec_u16_at(final(self).0@, header_idx as int) == num,
    {
        self.0[header_idx] = (num / 256) as u8;
        self.0[header_idx + 1] = (num % 256) as u8;
        proof {
            assert(self.0@ =~= spec_write_at(
                old(self).0@,
                header_idx as int,
                seq![(num / 256) as u8, (num % 256) as u8],
            ));
            vstd::arithmetic::div_mod::lemma_fundamental_div_mod(num as int, 256);
        }
    }

    /// Read the big-endian 16-bit integer at `idx`.
    fn get_u16_at_index(&self, idx: usize) -> (r: u16)
        requires
            idx + 2 <= 166,
        ensures
            r == spec_u16_at(self.0@, idx as int),
    {
        let hi: u16 = self.0[idx] as u16;
        let lo: u16 = self.0[idx + 1] as u16;
        hi * 256 + lo
    }

    pub fn set_packet_num(&mut self, packet_num: u16)
        ensures
            final(self).0@ == spec_write_at(
                old(self).0@,
                0,
                seq![(packet_num / 256) as u8, (packet_num % 256) as u8],
            ),
            spec_packet_number(final(self).0@) == packet_num,
    {
        self.set_u16_at_index(packet_num, PACKET_NUMBER_BEGIN);
    }

    pub fn get_packet_num(&self) -> (r: u16)
        ensures
            r == spec_packet_number(self.0@),
    {
        self.get_u16_at_index(PACKET_NUMBER_BEGIN)
    }

    pub fn set_version_num(&mut self, version_num: u8)
        ensures
            final(self).0@ == old(self).0@.update(2, version_num),
            spec_version(final(self).0@) == version_num,
    {
        self.0[HEADER_VERSION_BEGIN] = version_num;
    }

    pub fn get_version_num(&self) -> (r: u8)
        ensures
            r == spec_version(self.0@),
    {
        self.0[HEADER_VERSION_BEGIN]
    }

    pub fn set_message_type(&mut self, m_type: u8)
        ensures
            final(self).0@ == old(self).0@.update(67, m_type),
            spec_message_type(final(self).0@) == m_type,
    {
        self.0[MESSAGE_TYPE_BEGIN] = m_type;
    }

    pub fn get_message_type(&self) -> (r: u8)
        ensures
            r == spec_message_type(self.0@),
    {
        self.0[MESSAGE_TYPE_BEGIN]
    }

    pub fn set_data_packet_length(&mut self, packet_len: u16)
        ensures
            final(self).0@ == spec_write_at(
                old(self).0@,
                68,
                seq![(packet_len / 256) as u8, (packet_len % 256) as u8],
            ),
            spec_data_length(final(self).0@) == packet_len,
    {
        self.set_u16_at_index(packet_len, DATA_PACKET_LENGTH_BEGIN);
    }

    pub fn get_data_packet_length(&self) -> (r: u16)
        ensures
            r == spec_data_length(self.0@),
    {
        self.get_u16_at_index(DATA_PACKET_LENGTH_BEGIN)
    }

    /// Write a username into the 32-byte field at `begin_idx`. An input
    /// longer than 32 bytes is refused and the header is left unchanged.
    fn set_username(&mut self, username: &str, begin_idx: usize) -> (r: Result<
        (),
        &'static str,
    >)
        requires
            begin_idx == 3 || begin_idx == 35,
        ensures
            username.spec_bytes().len() > 32 ==> r is Err && *final(self) == *old(self),
            username.spec_bytes().len() <= 32 ==> r is Ok && final(self).0@ == spec_write_name(
                old(self).0@,
                begin_idx as int,
                username.spec_bytes(),
            ),
            r matches Err(m) ==> m@ == "The username is too long"@,
    {
        let bytes: Vec<u8> = username.as_bytes_vec();
        if bytes.len() > USERNAME_LEN {
            return Err("The username is too long");
        }
        let n = bytes.len();
        let mut idx: usize = 0;
        while idx < n
            invariant
                idx <= n,
                n == bytes@.len() <= 32,
                begin_idx == 3 || begin_idx == 35,
                bytes@ == username.spec_bytes(),
                forall|i: int| 0 <= i < idx ==> self.0@[begin_idx + i] == bytes@[i],
                forall|i: int|
                    0 <= i < 166 && !(begin_idx <= i < begin_idx + idx) ==> self.0@[i] == old(
                        self,
                    ).0@[i],
            decreases n - idx,
        {
            self.0[begin_idx + idx] = bytes[idx];
            idx += 1;
        }
        if n < USERNAME_LEN {
            self.0[begin_idx + n] = 0;
        }
        proof {
            assert(self.0@ =~= spec_write_name(old(self).0@, begin_idx as int, username.spec_bytes()));
        }
        Ok(())
    }

    /// Read the username stored in the 32-byte field at `begin_idx`: the
    /// bytes before the first NUL, decoded as UTF-8.
    fn get_username(&self, begin_idx: usize) -> (r: Result<String, &'static str>)
        requires
            begin_idx == 3 || begin_idx == 35,
        ensures
            valid_utf8(name_prefix(field32(self.0@, begin_idx as int))) <==> r is Ok,
            r matches Ok(u) ==> u@ == decode_utf8(name_prefix(field32(self.0@, begin_idx as int)))
                && encode_utf8(u@) == name_prefix(field32(self.0@, begin_idx as int)),
    {
        let ghost f = field32(self.0@, begin_idx as int);
        let mut collected: Vec<u8> = Vec::new();
        let mut idx: usize = 0;
        let mut saw_nul = false;
        while idx < USERNAME_LEN && !saw_nul
            invariant
                idx <= 32,
                begin_idx == 3 || begin_idx == 35,
                f == field32(self.0@, begin_idx as int),
                !saw_nul ==> collected@ == f.take(idx as int),
                !saw_nul ==> forall|i: int| 0 <= i < idx ==> f[i] != 0,
                saw_nul ==> collected@ == name_prefix(f),
            decreases 32 - idx + (if saw_nul { 0int } else { 1int }),
        {
            let b = self.0[begin_idx + idx];
            assert(b == f[idx as int]);
            if b == 0 {
                proof {
                    lemma_nul_index_unique(f, idx as int);
                }
                saw_nul = true;
            } else {
                collected.push(b);
                proof {
                    assert(f.take(idx + 1) =~= f.take(idx as int).push(f[idx as int]));
                }
                idx += 1;
            }
        }
        proof {
            if !saw_nul {
                lemma_nul_index_unique(f, 32);
                assert(collected@ == name_prefix(f));
            }
        }
        match string_from_utf8(collected) {
            Some(s) => {
                proof {
                    encode_utf8_decode_utf8(s@);
                }
                Ok(s)
            },
            None => Err("An error occurred pulling in the username string."),
        }
    }

    pub fn set_source_username(&mut self, username: &str) -> (r: Result<(), &'static str>)
        ensures
            username.spec_bytes().len() > 32 ==> r is Err && *final(self) == *old(self),
            username.spec_bytes().len() <= 32 ==> r is Ok && final(self).0@ == spec_write_name(
                old(self).0@,
                3,
                username.spec_bytes(),
            ),
            r matches Err(m) ==> m@ == "The username is too long"@,
    {
        self.set_username(username, SOURCE_USERNAME_BEGIN)
    }

    pub fn get_source_username(&self) -> (r: Result<String, &'static str>)
        ensures
            valid_utf8(spec_source_name(self.0@)) <==> r is Ok,
            r matches Ok(u) ==> u@ == decode_utf8(spec_source_name(self.0@)) && encode_utf8(u@)
                == spec_source_name(self.0@),
    {
        self.get_username(SOURCE_USERNAME_BEGIN)
    }

    pub fn set_dest_username(&mut self, username: &str) -> (r: Result<(), &'static str>)
        ensures
            username.spec_bytes().len() > 32 ==> r is Err && *final(self) == *old(self),
            username.spec_bytes().len() <= 32 ==> r is Ok && final(self).0@ == spec_write_name(
                old(self).0@,
                35,
                username.spec_bytes(),
            ),
            r matches Err(m) ==> m@ == "The username is too long"@,
    {
        self.set_username(username, DEST_USERNAME_BEGIN)
    }

    pub fn get_dest_username(&self) -> (r: Result<String, &'static str>)
        ensures
            valid_utf8(spec_dest_name(self.0@)) <==> r is Ok,
            r matches Ok(u) ==> u@ == decode_utf8(spec_dest_name(self.0@)) && encode_utf8(u@)
                == spec_dest_name(self.0@),
    {
        self.get_username(DEST_USERNAME_BEGIN)
    }

    /// Digest the checksummed region and store the result in the header
    /// checksum field; this must be the last mutation before sending.
    pub fn calculate_header_checksum(&mut self)
        ensures
            final(self).0@ == spec_write_at(
                old(self).0@,
                134,
                sha256_of(header_body(old(self).0@)),
            ),
            header_body(final(self).0@) == header_body(old(self).0@),
            header_checksum_valid(final(self).0@),
    {
        let mut prefix: Vec<u8> = Vec::new();
        let mut i: usize = 0;
        while i < HEADER_CHECKSUM_BEGIN
            invariant
                i <= 134,
                self == old(self),
                prefix@ == self.0@.subrange(0, i as int),
            decreases 134 - i,
        {
            prefix.push(self.0[i]);
            proof {
                assert(self.0@.subrange(0, i + 1) =~= self.0@.subrange(0, i as int).push(
                    self.0@[i as int],
                ));
            }
            i += 1;
        }
        proof {
            assert(prefix@ == header_body(old(self).0@));
        }
        let hash = sha256(prefix.as_slice());
        let mut j: usize = 0;
        while j < 32
            invariant
                j <= 32,
                hash@ == sha256_of(header_body(old(self).0@)),
                hash@.len() == 32,
                forall|i: int| 0 <= i < j ==> self.0@[134 + i] == hash@[i],
                forall|i: int|
                    0 <= i < 166 && !(134 <= i < 134 + j) ==> self.0@[i] == old(self).0@[i],
            decreases 32 - j,
        {
            self.0[HEADER_CHECKSUM_BEGIN + j] = hash[j];
            j += 1;
        }
        proof {
            assert(self.0@ =~= spec_write_at(
                old(self).0@,
                134,
                sha256_of(header_body(old(self).0@)),
            ));
            assert(header_body(self.0@) =~= header_body(old(self).0@));
            assert(stored_header_checksum(self.0@) =~= sha256_of(header_body(self.0@)));
        }
    }

    /// Recompute the digest of the checksummed region and compare it to
    /// the one stored in the header.
    pub fn verify_header_checksum(&self) -> (r: bool)
        ensures
            r == header_checksum_valid(self.0@),
    {
        let mut prefix: Vec<u8> = Vec::new();
        let mut i: usize = 0;
        while i < HEADER_CHECKSUM_BEGIN
            invariant
                i <= 134,
                prefix@ == self.0@.subrange(0, i as int),
            decreases 134 - i,
        {
            prefix.push(self.0[i]);
            proof {
                assert(self.0@.subrange(0, i + 1) =~= self.0@.subrange(0, i as int).push(
                    self.0@[i as int],
                ));
            }
            i += 1;
        }
        proof {
            assert(prefix@ == header_body(self.0@));
        }
        let hash = sha256(prefix.as_slice());
        let mut j: usize = 0;
        while j < 32
            invariant
                j <= 32,
                hash@ == sha256_of(header_body(self.0@)),
                hash@.len() == 32,
                forall|i: int| 0 <= i < j ==> self.0@[134 + i] == hash@[i],
            decreases 32 - j,
        {
            if self.0[HEADER_CHECKSUM_BEGIN + j] != hash[j] {
                proof {
                    assert(stored_header_checksum(self.0@)[j as int] != sha256_of(
                        header_body(self.0@),
                    )[j as int]);
                }
                return false;
            }
            j += 1;
        }
        proof {
            assert(stored_header_checksum(self.0@) =~= sha256_of(header_body(self.0@)));
        }
        true
    }

    /// Digest `data_portion` and store the result in the data checksum
    /// field of the header.
    pub fn calculate_data_checksum(&mut self, data_portion: &Vec<u8>)
        ensures
            final(self).0@ == spec_write_at(old(self).0@, 70, sha256_of(data_portion@)),
            data_checksum_matches(final(self).0@, data_portion@),
    {
        let hash = sha256(data_portion.as_slice());
        let mut j: usize = 0;
        while j < 32
            invariant
                j <= 32,
                hash@ == sha256_of(data_portion@),
                hash@.len() == 32,
                forall|i: int| 0 <= i < j ==> self.0@[70 + i] == hash@[i],
                forall|i: int|
                    0 <= i < 166 && !(70 <= i < 70 + j) ==> self.0@[i] == old(self).0@[i],
            decreases 32 - j,
        {
            self.0[DATA_PACKET_CHECKSUM_BEGIN + j] = hash[j];
            j += 1;
        }
        proof {
            assert(self.0@ =~= spec_write_at(old(self).0@, 70, sha256_of(data_portion@)));
            assert(stored_data_checksum(self.0@) =~= sha256_of(data_portion@));
        }
    }

    /// Digest `data_portion` and compare it to the data checksum stored
    /// in the header.
    pub fn verify_data_checksum(&self, data_portion: &Vec<u8>) -> (r: bool)
        ensures
            r == data_checksum_matches(self.0@, data_portion@),
    {
        let hash = sha256(data_portion.as_slice());
        let mut j: usize = 0;
        while j < 32
            invariant
                j <= 32,
                hash@ == sha256_of(data_portion@),
                hash@.len() == 32,
                forall|i: int| 0 <= i < j ==> self.0@[70 + i] == hash@[i],
            decreases 32 - j,
        {
            if self.0[DATA_PACKET_CHECKSUM_BEGIN + j] != hash[j] {
                proof {
                    assert(stored_data_checksum(self.0@)[j as int] != sha256_of(
                        data_portion@,
                    )[j as int]);
                }
                return false;
            }
            j += 1;
        }
        proof {
            assert(stored_data_checksum(self.0@) =~= sha256_of(data_portion@));
        }
        true
    }
}

/// A username whose UTF-8 form fits in 32 bytes and holds no NUL byte is
/// read back from the name field exactly as it was written.
pub proof fn lemma_username_round_trip(s: Seq<u8>, b: int, name: Seq<char>)
    requires
        s.len() == 166,
        b == 3 || b == 35,
        encode_utf8(name).len() <= 32,
        !encode_utf8(name).contains(0),
    ensures
        name_prefix(field32(spec_write_name(s, b, encode_utf8(name)), b)) == encode_utf8(name),
        valid_utf8(name_prefix(field32(spec_write_name(s, b, encode_utf8(name)), b))),
        decode_utf8(name_prefix(field32(spec_write_name(s, b, encode_utf8(name)), b))) == name,
{
    let w = encode_utf8(name);
    let s2 = spec_write_name(s, b, w);
    let f = field32(s2, b);
    assert(f.len() == 32);
    assert forall|i: int| 0 <= i < w.len() implies f[i] != 0 by {
        assert(f[i] == w[i]);
        if w[i] == 0 {
            assert(w.contains(0));
        }
    }
    if w.len() < 32 {
        assert(f[w.len() as int] == 0);
    }
    lemma_nul_index_unique(f, w.len() as int);
    assert(name_prefix(f) =~= w);
    encode_utf8_valid_utf8(name);
    encode_utf8_decode_utf8(name);
}

/// Writing a header checksum makes the verification of the header pass.
pub proof fn lemma_header_checksum_verifies(s: Seq<u8>)
    requires
        s.len() == 166,
    ensures
        sha256_of(header_body(s)).len() == 32 ==> header_checksum_valid(
            spec_write_at(s, 134, sha256_of(header_body(s))),
        ),
{
    let s2 = spec_write_at(s, 134, sha256_of(header_body(s)));
    assert(header_body(s2) =~= header_body(s));
    if sha256_of(header_body(s)).len() == 32 {
        assert(stored_header_checksum(s2) =~= sha256_of(header_body(s)));
    }
}

/// A later mutation of the checksummed region invalidates the stored
/// header checksum, as long as the digests of the old and new contents
/// differ.
pub proof fn lemma_mutation_invalidates_checksum(s1: Seq<u8>, s2: Seq<u8>)
    requires
        s1.len() == 166,
        s2.len() == 166,
    ensures
        header_checksum_valid(s1) && stored_header_checksum(s2) == stored_header_checksum(s1)
            && sha256_of(header_body(s2)) != sha256_of(header_body(s1)) ==> !header_checksum_valid(
            s2,
        ),
{
}

/// Writing a data checksum for a body makes verification of that body pass.
pub proof fn lemma_data_checksum_verifies(s: Seq<u8>, body: Seq<u8>)
    requires
        s.len() == 166,
    ensures
        sha256_of(body).len() == 32 ==> data_checksum_matches(
            spec_write_at(s, 70, sha256_of(body)),
            body,
        ),
{
    let s2 = spec_write_at(s, 70, sha256_of(body));
    if sha256_of(body).len() == 32 {
        assert(stored_data_checksum(s2) =~= sha256_of(body));
    }
}

/// A body other than the one that was checksummed fails verification, as
/// long as the digests of the two bodies differ.
pub proof fn lemma_data_checksum_discriminates(s: Seq<u8>, v1: Seq<u8>, v2: Seq<u8>)
    requires
        s.len() == 166,
    ensures
        data_checksum_matches(s, v1) && sha256_of(v2) != sha256_of(v1) ==> !data_checksum_matches(
            s,
            v2,
        ),
{
}

} // verus!
