use crate::digest::sha256_of;
use crate::header::{
    header_body, header_checksum_valid, spec_data_length, stored_header_checksum, MessageHeader,
};
use vstd::prelude::*;

verus! {

/// Why a frame could not be read off a byte stream.
#[derive(Clone, Copy, Debug, PartialEq, Eq, Structural)]
pub enum FrameError {
    /// The stream ended before a full header or the announced body.
    UnexpectedEof,
    /// The stored header checksum does not match the header contents.
    BadHeaderChecksum,
}

/// The bytes carried by an optional frame body.
pub open spec fn opt_bytes(b: Option<Vec<u8>>) -> Seq<u8> {
    match b {
        Some(v) => v@,
        None => Seq::empty(),
    }
}

/// What reading one frame at offset `pos` of `input` yields: the 166
/// header bytes, the body bytes sized by the header's length field, and
/// the offset just past the frame.
pub open spec fn spec_decode(input: Seq<u8>, pos: int) -> Result<
    (Seq<u8>, Seq<u8>, int),
    FrameError,
> {
    if pos + 166 > input.len() {
        Err(FrameError::UnexpectedEof)
    } else {
        let h = input.subrange(pos, pos + 166);
        if !header_checksum_valid(h) {
            Err(FrameError::BadHeaderChecksum)
        } else if pos + 166 + spec_data_length(h) > input.len() {
            Err(FrameError::UnexpectedEof)
        } else {
            Ok(
                (
                    h,
                    input.subrange(pos + 166, pos + 166 + spec_data_length(h)),
                    pos + 166 + spec_data_length(h),
                ),
            )
        }
    }
}

/// Parse one frame out of `input` at offset `pos`: the header is read and
/// its checksum verified, then the body announced by the length field is
/// taken. The body is `None` exactly when the length field is zero.
pub fn read_frame(input: &Vec<u8>, pos: usize) -> (r: Result<
    (MessageHeader, Option<Vec<u8>>, usize),
    FrameError,
>)
    requires
        pos <= input@.len(),
    ensures
        r matches Ok((h, body, newpos)) ==> spec_decode(input@, pos as int) == Ok::<
            (Seq<u8>, Seq<u8>, int),
            FrameError,
        >((h.0@, opt_bytes(body), newpos as int)) && (body is Some <==> spec_data_length(h.0@)
            > 0),
        r matches Err(e) ==> spec_decode(input@, pos as int) == Err::<
            (Seq<u8>, Seq<u8>, int),
            FrameError,
        >(e),
{
    if input.len() - pos < 166 {
        return Err(FrameError::UnexpectedEof);
    }
    let mut header = MessageHeader::new();
    let mut i: usize = 0;
    while i < 166
        invariant
            i <= 166,
            pos + 166 <= input@.len(),
            input@.len() <= usize::MAX,
            header.0@.len() == 166,
            forall|k: int| 0 <= k < i ==> header.0@[k] == input@[pos + k],
        decreases 166 - i,
    {
        header.0[i] = input[pos + i];
        i += 1;
    }
    proof {
        assert(header.0@ =~= input@.subrange(pos as int, pos + 166));
    }
    if !header.verify_header_checksum() {
        return Err(FrameError::BadHeaderChecksum);
    }
    let n = header.get_data_packet_length() as usize;
    if input.len() - (pos + 166) < n {
        return Err(FrameError::UnexpectedEof);
    }
    if n == 0 {
        proof {
            assert(input@.subrange(pos + 166, pos + 166) =~= Seq::<u8>::empty());
        }
        return Ok((header, None, pos + 166));
    }
    let mut body: Vec<u8> = Vec::new();
    let mut j: usize = 0;
    while j < n
        invariant
            j <= n,
            pos + 166 + n <= input@.len(),
            input@.len() <= usize::MAX,
            body@.len() == j,
            forall|k: int| 0 <= k < j ==> body@[k] == input@[pos + 166 + k],
        decreases n - j,
    {
        body.push(input[pos + 166 + j]);
        j += 1;
    }
    proof {
        assert(body@ =~= input@.subrange(pos + 166, pos + 166 + n));
    }
    Ok((header, Some(body), pos + 166 + n))
}

/// Serialize a frame for the wire: the 166 header bytes followed by the
/// body bytes, exactly as they sit in the header's own buffer.
pub fn write_frame(header: &MessageHeader, body: Option<&Vec<u8>>) -> (r: Vec<u8>)
    ensures
        r@ == header.0@ + match body {
            Some(b) => b@,
            None => Seq::<u8>::empty(),
        },
{
    let mut out: Vec<u8> = Vec::new();
    let mut i: usize = 0;
    while i < 166
        invariant
            i <= 166,
            out@ =~= header.0@.subrange(0, i as int),
        decreases 166 - i,
    {
        out.push(header.0[i]);
        proof {
            assert(header.0@.subrange(0, i + 1) =~= header.0@.subrange(0, i as int).push(
                header.0@[i as int],
            ));
        }
        i += 1;
    }
    proof {
        assert(out@ =~= header.0@);
    }
    match body {
        Some(b) => {
            let mut j: usize = 0;
            while j < b.len()
                invariant
                    j <= b@.len(),
                    out@ =~= header.0@ + b@.subrange(0, j as int),
                decreases b@.len() - j,
            {
                out.push(b[j]);
                proof {
                    assert(header.0@ + b@.subrange(0, j + 1) =~= (header.0@ + b@.subrange(
                        0,
                        j as int,
                    )).push(b@[j as int]));
                }
                j += 1;
            }
            proof {
                assert(out@ =~= header.0@ + b@);
            }
            out
        },
        None => {
            proof {
                assert(out@ =~= header.0@ + Seq::<u8>::empty());
            }
            out
        },
    }
}

/// What decoding a whole stream yields: the frames in order, or nothing
/// if any frame of it is damaged or truncated.
pub open spec fn spec_decode_all(input: Seq<u8>, pos: int) -> Option<Seq<(Seq<u8>, Seq<u8>)>>
    decreases input.len() - pos,
{
    if pos == input.len() {
        Some(Seq::empty())
    } else {
        match spec_decode(input, pos) {
            Err(_) => None,
            Ok((h, b, np)) => if pos < np <= input.len() {
                match spec_decode_all(input, np) {
                    None => None,
                    Some(rest) => Some(seq![(h, b)] + rest),
                }
            } else {
                None
            },
        }
    }
}

/// Parse a whole stream as consecutive frames; any damaged or truncated
/// frame fails the whole read.
pub fn read_all_frames(input: &Vec<u8>) -> (r: Result<
    Vec<(MessageHeader, Option<Vec<u8>>)>,
    FrameError,
>)
    ensures
        r matches Ok(frames) ==> {
            &&& spec_decode_all(input@, 0) matches Some(fs)
            &&& frames@.len() == fs.len()
            &&& forall|i: int|
                0 <= i < fs.len() ==> frames@[i].0.0@ == fs[i].0 && opt_bytes(frames@[i].1)
                    == fs[i].1
        },
        r is Err ==> spec_decode_all(input@, 0) is None,
{
    let mut frames: Vec<(MessageHeader, Option<Vec<u8>>)> = Vec::new();
    let ghost mut acc: Seq<(Seq<u8>, Seq<u8>)> = Seq::empty();
    let mut pos: usize = 0;
    while pos < input.len()
        invariant
            pos <= input@.len(),
            frames@.len() == acc.len(),
            forall|i: int|
                0 <= i < acc.len() ==> frames@[i].0.0@ == acc[i].0 && opt_bytes(frames@[i].1)
                    == acc[i].1,
            forall|rest: Seq<(Seq<u8>, Seq<u8>)>|
                spec_decode_all(input@, pos as int) == Some(rest) ==> spec_decode_all(input@, 0)
                    == Some(acc + rest),
            spec_decode_all(input@, pos as int) is None ==> spec_decode_all(input@, 0) is None,
        decreases input@.len() - pos,
    {
        let ghost old_pos = pos as int;
        let ghost old_acc = acc;
        match read_frame(input, pos) {
            Ok((h, body, newpos)) => {
                proof {
                    acc = acc + seq![(h.0@, opt_bytes(body))];
                }
                frames.push((h, body));
                pos = newpos;
                proof {
                    assert forall|rest: Seq<(Seq<u8>, Seq<u8>)>|
                        spec_decode_all(input@, pos as int) == Some(rest) implies spec_decode_all(
                        input@,
                        0,
                    ) == Some(acc + rest) by {
                        assert(spec_decode_all(input@, old_pos) == Some(
                            seq![(h.0@, opt_bytes(body))] + rest,
                        ));
                        assert(old_acc + (seq![(h.0@, opt_bytes(body))] + rest) =~= acc + rest);
                    }
                }
            },
            Err(e) => {
                return Err(e);
            },
        }
    }
    proof {
        assert(spec_decode_all(input@, pos as int) == Some(Seq::<(Seq<u8>, Seq<u8>)>::empty()));
        assert(acc + Seq::<(Seq<u8>, Seq<u8>)>::empty() =~= acc);
    }
    Ok(frames)
}

/// The wire form of a sequence of frames: each header followed by its body.
pub open spec fn spec_encode_frames(frames: Seq<(Seq<u8>, Seq<u8>)>) -> Seq<u8>
    decreases frames.len(),
{
    if frames.len() == 0 {
        Seq::empty()
    } else {
        frames[0].0 + frames[0].1 + spec_encode_frames(frames.drop_first())
    }
}

/// A frame fit for the wire: full-size header, valid header checksum, and
/// a length field that matches the body.
pub open spec fn frame_wf(f: (Seq<u8>, Seq<u8>)) -> bool {
    f.0.len() == 166 && header_checksum_valid(f.0) && spec_data_length(f.0) == f.1.len()
}

proof fn lemma_concat_decodes_at(input: Seq<u8>, pos: int, frames: Seq<(Seq<u8>, Seq<u8>)>)
    requires
        0 <= pos <= input.len(),
        input.subrange(pos, input.len() as int) == spec_encode_frames(frames),
        forall|i: int| 0 <= i < frames.len() ==> frame_wf(#[trigger] frames[i]),
    ensures
        spec_decode_all(input, pos) == Some(frames),
    decreases frames.len(),
{
    let tail = input.subrange(pos, input.len() as int);
    if frames.len() == 0 {
        assert(tail.len() == 0);
        assert(frames =~= Seq::<(Seq<u8>, Seq<u8>)>::empty());
    } else {
        let f = frames[0];
        assert(frame_wf(f));
        let h = f.0;
        let b = f.1;
        let rest = frames.drop_first();
        let restbytes = spec_encode_frames(rest);
        assert(tail == h + b + restbytes);
        let np = pos + 166 + b.len();
        assert(input.subrange(pos, pos + 166) =~= h) by {
            assert forall|k: int| 0 <= k < 166 implies input[pos + k] == h[k] by {
                assert(input[pos + k] == tail[k]);
                assert(tail[k] == ((h + b) + restbytes)[k]);
            }
        }
        assert(spec_data_length(h) == b.len());
        assert(input.subrange(pos + 166, np) =~= b) by {
            assert forall|k: int| 0 <= k < b.len() implies input[pos + 166 + k] == b[k] by {
                assert(input[pos + 166 + k] == tail[166 + k]);
                assert(tail[166 + k] == ((h + b) + restbytes)[166 + k]);
            }
        }
        assert(spec_decode(input, pos) == Ok::<(Seq<u8>, Seq<u8>, int), FrameError>((h, b, np)));
        assert(input.subrange(np, input.len() as int) =~= restbytes) by {
            assert forall|k: int| 0 <= k < restbytes.len() implies input[np + k] == restbytes[k]
                by {
                assert(input[np + k] == tail[166 + b.len() + k]);
                assert(tail[166 + b.len() + k] == ((h + b) + restbytes)[166 + b.len() + k]);
            }
        }
        assert forall|i: int| 0 <= i < rest.len() implies frame_wf(#[trigger] rest[i]) by {
            assert(rest[i] == frames[i + 1]);
        }
        lemma_concat_decodes_at(input, np, rest);
        assert(seq![(h, b)] + rest =~= frames);
    }
}

/// A stream that is the concatenation of well-formed frames is decoded
/// back as exactly those frames, in order.
pub proof fn lemma_concat_decodes(frames: Seq<(Seq<u8>, Seq<u8>)>)
    ensures
        (forall|i: int| 0 <= i < frames.len() ==> frame_wf(#[trigger] frames[i]))
            ==> spec_decode_all(spec_encode_frames(frames), 0) == Some(frames),
{
    if forall|i: int| 0 <= i < frames.len() ==> frame_wf(#[trigger] frames[i]) {
        let input = spec_encode_frames(frames);
        assert(input.subrange(0, input.len() as int) =~= input);
        lemma_concat_decodes_at(input, 0, frames);
    }
}

/// A frame written and then read back yields the same header bytes and
/// the same body, and consumes the whole stream.
pub proof fn lemma_frame_round_trip(h: Seq<u8>, body: Seq<u8>)
    requires
        h.len() == 166,
    ensures
        header_checksum_valid(h) && spec_data_length(h) == body.len() ==> spec_decode(h + body, 0)
            == Ok::<(Seq<u8>, Seq<u8>, int), FrameError>((h, body, h.len() + body.len() as int)),
{
    if header_checksum_valid(h) && spec_data_length(h) == body.len() {
        let input = h + body;
        assert(input.subrange(0, 166) =~= h);
        assert(input.subrange(166, 166 + body.len() as int) =~= body);
    }
}

/// A stream cut short inside the header is refused as an unexpected end.
pub proof fn lemma_truncated_header(input: Seq<u8>, pos: int)
    requires
        0 <= pos,
    ensures
        input.len() - pos < 166 ==> spec_decode(input, pos) == Err::<
            (Seq<u8>, Seq<u8>, int),
            FrameError,
        >(FrameError::UnexpectedEof),
{
}

/// A stream cut short inside the announced body is refused as an
/// unexpected end.
pub proof fn lemma_truncated_body(input: Seq<u8>, pos: int)
    requires
        0 <= pos,
        pos + 166 <= input.len(),
    ensures
        header_checksum_valid(input.subrange(pos, pos + 166)) && pos + 166 + spec_data_length(
            input.subrange(pos, pos + 166),
        ) > input.len() ==> spec_decode(input, pos) == Err::<
            (Seq<u8>, Seq<u8>, int),
            FrameError,
        >(FrameError::UnexpectedEof),
{
}

/// A well-formed header whose checksummed region was altered in place is
/// refused on read, as long as the digests of the original and altered
/// contents differ.
pub proof fn lemma_flipped_bit_refused(h1: Seq<u8>, h2: Seq<u8>)
    requires
        h1.len() == 166,
        h2.len() == 166,
    ensures
        header_checksum_valid(h1) && stored_header_checksum(h2) == stored_header_checksum(h1)
            && sha256_of(header_body(h2)) != sha256_of(header_body(h1)) ==> spec_decode(h2, 0)
            == Err::<(Seq<u8>, Seq<u8>, int), FrameError>(FrameError::BadHeaderChecksum),
{
    crate::header::lemma_mutation_invalidates_checksum(h1, h2);
    assert(h2.subrange(0, 166) =~= h2);
}

/// A header whose checksummed region was altered after checksumming is
/// refused on read, as long as the digests of the old and new contents
/// differ.
pub proof fn lemma_corrupted_header_refused(input: Seq<u8>, pos: int)
    requires
        0 <= pos,
        pos + 166 <= input.len(),
    ensures
        !header_checksum_valid(input.subrange(pos, pos + 166)) ==> spec_decode(input, pos)
            == Err::<(Seq<u8>, Seq<u8>, int), FrameError>(FrameError::BadHeaderChecksum),
{
}

} // verus!
