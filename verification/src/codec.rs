use vstd::prelude::*;
use crate::error::CodecError;
use crate::packet::Packet;
use crate::stream::ByteStream;
use crate::varint::{
    venc, vsize, venc32, vsize32, u32_of_i32, i32_of_u32, vparse, write_varint, read_varint,
    varint_size, lemma_venc_len, lemma_vparse_of_venc, lemma_vparse_bounds,
    lemma_id_cast_roundtrip,
};

verus! {

/// The block that compression is applied to: the encoded identifier
/// followed by the payload.
pub open spec fn body_of(id: i32, payload: Seq<u8>) -> Seq<u8> {
    venc32(id) + payload
}

/// The uncompressed content length carried in every frame:
/// `encodedSize(id) + len(payload)`.
pub open spec fn data_len_of(id: i32, payload: Seq<u8>) -> int {
    vsize32(id) + payload.len()
}

/// Whether the content length fits the signed 32-bit varint it is written
/// as; a machine limit, not a protocol rule.
pub open spec fn plain_fits(id: i32, payload: Seq<u8>) -> bool {
    data_len_of(id, payload) <= 0x7fff_ffff
}

/// The plain on-wire layout:
/// `VarInt(dataLength) VarInt(id) Bytes(payload)`.
pub open spec fn plain_frame(id: i32, payload: Seq<u8>) -> Seq<u8> {
    venc(data_len_of(id, payload) as u32) + venc32(id) + payload
}

/// What the zlib compressor returns for a given input block. The encoding
/// depends on the input bytes alone; nothing shorter than the algorithm
/// itself describes it, so it is named and never unfolded.
pub uninterp spec fn deflate_of(s: Seq<u8>) -> Seq<u8>;

/// The compressed on-wire layout with an explicit compressed block:
/// `VarInt(packetLength) VarInt(dataLength) Bytes(body)`, where
/// `packetLength = encodedSize(dataLength) + len(body)`.
pub open spec fn comp_frame_with(id: i32, payload: Seq<u8>, body: Seq<u8>) -> Seq<u8> {
    let dl: int = data_len_of(id, payload);
    venc((vsize(dl as u32) + body.len()) as u32) + venc(dl as u32) + body
}

/// Whether both length fields of the compressed layout fit their signed
/// 32-bit varints.
pub open spec fn comp_fits(id: i32, payload: Seq<u8>, body: Seq<u8>) -> bool {
    plain_fits(id, payload) && vsize(data_len_of(id, payload) as u32) + body.len() <= 0x7fff_ffff
}

/// The compressed on-wire layout as the writer produces it.
pub open spec fn comp_frame(id: i32, payload: Seq<u8>) -> Seq<u8> {
    comp_frame_with(id, payload, deflate_of(body_of(id, payload)))
}

/// Parsing the plain layout from the front of `s`: the identifier, the
/// payload, and the bytes consumed; or the failure, exactly as the reader
/// reports it. A negative length field and a frame length smaller than the
/// identifier's encoded size are protocol failures; running out of bytes is
/// an unexpected end.
pub open spec fn parse_plain(s: Seq<u8>) -> Result<(i32, Seq<u8>, int), CodecError> {
    match vparse(s) {
        Err(e) => Err(e),
        Ok((plu, n1)) => {
            if i32_of_u32(plu) < 0 {
                Err(CodecError::Protocol)
            } else {
                let pl: int = i32_of_u32(plu) as int;
                match vparse(s.skip(n1)) {
                    Err(e) => Err(e),
                    Ok((idu, n2)) => {
                        if pl < vsize(idu) {
                            Err(CodecError::Protocol)
                        } else if s.len() < n1 + n2 + (pl - vsize(idu)) {
                            Err(CodecError::UnexpectedEnd)
                        } else {
                            Ok(
                                (
                                    i32_of_u32(idu),
                                    s.subrange(n1 + n2, n1 + n2 + (pl - vsize(idu))),
                                    n1 + n2 + (pl - vsize(idu)),
                                ),
                            )
                        }
                    },
                }
            }
        },
    }
}

/// Parsing the compressed layout's header from the front of `s`: the
/// uncompressed content length, the compressed block, and the bytes
/// consumed; or the failure.
pub open spec fn parse_comp_header(s: Seq<u8>) -> Result<(int, Seq<u8>, int), CodecError> {
    match vparse(s) {
        Err(e) => Err(e),
        Ok((plu, n1)) => {
            if i32_of_u32(plu) < 0 {
                Err(CodecError::Protocol)
            } else {
                let pl: int = i32_of_u32(plu) as int;
                match vparse(s.skip(n1)) {
                    Err(e) => Err(e),
                    Ok((dlu, n2)) => {
                        if i32_of_u32(dlu) < 0 {
                            Err(CodecError::Protocol)
                        } else if pl < vsize(dlu) {
                            Err(CodecError::Protocol)
                        } else if s.len() < n1 + n2 + (pl - vsize(dlu)) {
                            Err(CodecError::UnexpectedEnd)
                        } else {
                            Ok(
                                (
                                    i32_of_u32(dlu) as int,
                                    s.subrange(n1 + n2, n1 + n2 + (pl - vsize(dlu))),
                                    n1 + n2 + (pl - vsize(dlu)),
                                ),
                            )
                        }
                    },
                }
            }
        },
    }
}

/// Parsing a decompressed content block against the declared uncompressed
/// length: the identifier and the payload, or the failure. A mismatch
/// between the declared length and the actual content is a protocol
/// failure.
pub open spec fn parse_content(decoded: Seq<u8>, dl: int) -> Result<(i32, Seq<u8>), CodecError> {
    match vparse(decoded) {
        Err(e) => Err(e),
        Ok((idu, n)) => {
            let payload: Seq<u8> = decoded.skip(n);
            if vsize(idu) + payload.len() != dl {
                Err(CodecError::Protocol)
            } else {
                Ok((i32_of_u32(idu), payload))
            }
        },
    }
}

/// Relies on libflate's zlib `Encoder` (`new`, `write_all`, `finish`): it
/// deterministically compresses exactly the bytes written to it. Writing
/// into an in-memory `Vec` it cannot fail: every error return in the
/// encoder's pipeline propagates a sink I/O error, and a `Vec` sink never
/// errors — the error arms below are defensive and unreachable.
#[verifier::external_body]
fn zlib_compress(data: &Vec<u8>) -> (r: Result<Vec<u8>, CodecError>)
    ensures
        r is Ok,
        r->Ok_0@ == deflate_of(data@),
{
    let mut enc = match libflate::zlib::Encoder::new(Vec::new()) {
        Ok(e) => e,
        Err(_) => return Err(CodecError::Compression),
    };
    if std::io::Write::write_all(&mut enc, data.as_slice()).is_err() {
        return Err(CodecError::Compression);
    }
    match enc.finish().into_result() {
        Ok(v) => Ok(v),
        Err(_) => Err(CodecError::Compression),
    }
}

/// Relies on libflate's zlib `Decoder` (`new`, `read_to_end`): decoding is
/// lossless, so on the encoder's output for some block it succeeds and
/// returns exactly that block; any failure it reports is a compression
/// failure.
#[verifier::external_body]
fn zlib_decompress(data: &Vec<u8>) -> (r: Result<Vec<u8>, CodecError>)
    ensures
        forall|s: Seq<u8>| data@ == #[trigger] deflate_of(s) ==> r is Ok && r->Ok_0@ == s,
        r is Err ==> r->Err_0 == CodecError::Compression,
{
    let mut dec = match libflate::zlib::Decoder::new(data.as_slice()) {
        Ok(d) => d,
        Err(_) => return Err(CodecError::Compression),
    };
    let mut out = Vec::new();
    match std::io::Read::read_to_end(&mut dec, &mut out) {
        Ok(_) => Ok(out),
        Err(_) => Err(CodecError::Compression),
    }
}

/// Rebuilds a packet from a decompressed content block, validating the
/// declared uncompressed length against what the block actually holds.
pub fn packet_from_content(decoded: &Vec<u8>, data_length: i32) -> (r: Result<Packet, CodecError>)
    requires
        data_length >= 0,
    ensures
        (match parse_content(decoded@, data_length as int) {
            Ok((id, payload)) => r is Ok && r->Ok_0@.id == id && r->Ok_0@.payload == payload,
            Err(e) => r is Err && r->Err_0 == e,
        }),
{
    let mut res = Packet::new(0);
    res.write(decoded.as_slice());
    proof {
        assert(Seq::<u8>::empty() + decoded@ =~= decoded@);
    }
    let id = match res.read_var_int() {
        Ok(v) => v,
        Err(e) => {
            return Err(e);
        },
    };
    res.set_id(id);
    let id_size = varint_size(id);
    proof {
        if vparse(decoded@) is Ok {
            lemma_id_cast_roundtrip(id, vparse(decoded@)->Ok_0.0);
        }
    }
    let rem = res.payload_len();
    let dlu = data_length as usize;
    if dlu < id_size {
        return Err(CodecError::Protocol);
    }
    if rem != dlu - id_size {
        return Err(CodecError::Protocol);
    }
    Ok(res)
}

/// Round trip, plain layout: for any identifier in the full signed 32-bit
/// range and any payload, parsing a plain frame — whatever bytes follow it
/// on the stream — yields exactly the identifier and payload that were
/// framed, consuming exactly the frame.
pub proof fn lemma_plain_round_trip(id: i32, payload: Seq<u8>, rest: Seq<u8>)
    requires
        plain_fits(id, payload),
    ensures
        parse_plain(plain_frame(id, payload) + rest) == Ok::<(i32, Seq<u8>, int), CodecError>(
            (id, payload, plain_frame(id, payload).len() as int),
        ),
{
    let dl: int = data_len_of(id, payload);
    let dlu: u32 = dl as u32;
    let idu: u32 = u32_of_i32(id);
    let s = plain_frame(id, payload) + rest;
    let t1 = venc(idu) + (payload + rest);
    assert(s =~= venc(dlu) + t1);
    lemma_vparse_of_venc(dlu, t1);
    let n1: int = venc(dlu).len() as int;
    assert(s.skip(n1) =~= t1);
    lemma_vparse_of_venc(idu, payload + rest);
    let n2: int = venc(idu).len() as int;
    lemma_id_cast_roundtrip(id, idu);
    assert(s.subrange(n1 + n2, n1 + n2 + payload.len() as int) =~= payload);
    assert(plain_frame(id, payload).len() == n1 + n2 + payload.len());
}

/// Round trip, compressed layout: parsing the compressed frame built over
/// any compressed block recovers the declared content length and that very
/// block, and parsing the uncompressed content block recovers exactly the
/// identifier and payload, with the declared length validating. Together
/// with the decompressor inverting the compressor, a compressed write
/// followed by a compressed read yields the original packet.
pub proof fn lemma_comp_round_trip(id: i32, payload: Seq<u8>, body: Seq<u8>, rest: Seq<u8>)
    requires
        comp_fits(id, payload, body),
    ensures
        parse_comp_header(comp_frame_with(id, payload, body) + rest) == Ok::<
            (int, Seq<u8>, int),
            CodecError,
        >((data_len_of(id, payload), body, comp_frame_with(id, payload, body).len() as int)),
        parse_content(body_of(id, payload), data_len_of(id, payload)) == Ok::<
            (i32, Seq<u8>),
            CodecError,
        >((id, payload)),
{
    let dl: int = data_len_of(id, payload);
    let dlu: u32 = dl as u32;
    let idu: u32 = u32_of_i32(id);
    let pl: int = vsize(dlu) + body.len();
    let plu: u32 = pl as u32;
    let s = comp_frame_with(id, payload, body) + rest;
    let t1 = venc(dlu) + (body + rest);
    assert(s =~= venc(plu) + t1);
    lemma_vparse_of_venc(plu, t1);
    let n1: int = venc(plu).len() as int;
    assert(s.skip(n1) =~= t1);
    lemma_vparse_of_venc(dlu, body + rest);
    let n2: int = venc(dlu).len() as int;
    assert(s.subrange(n1 + n2, n1 + n2 + body.len() as int) =~= body);
    assert(comp_frame_with(id, payload, body).len() == n1 + n2 + body.len());
    lemma_vparse_of_venc(idu, payload);
    lemma_id_cast_roundtrip(id, idu);
    assert(body_of(id, payload).skip(venc(idu).len() as int) =~= payload);
}

/// Length exactness, plain layout: the frame-length prefix of a plain
/// frame equals the number of bytes that follow it in the frame.
pub proof fn lemma_length_prefix_exact_plain(id: i32, payload: Seq<u8>)
    requires
        plain_fits(id, payload),
    ensures
        vparse(plain_frame(id, payload)) == Ok::<(u32, int), CodecError>(
            (
                data_len_of(id, payload) as u32,
                vsize(data_len_of(id, payload) as u32),
            ),
        ),
        plain_frame(id, payload).len() == vsize(data_len_of(id, payload) as u32) + data_len_of(
            id,
            payload,
        ),
{
    let dlu: u32 = data_len_of(id, payload) as u32;
    let t1 = venc(u32_of_i32(id)) + payload;
    assert(plain_frame(id, payload) =~= venc(dlu) + t1);
    lemma_vparse_of_venc(dlu, t1);
}

/// Length exactness, compressed layout: the frame-length prefix of a
/// compressed frame equals the number of bytes that follow it in the
/// frame, whatever the compressed block.
pub proof fn lemma_length_prefix_exact_comp(id: i32, payload: Seq<u8>, body: Seq<u8>)
    requires
        comp_fits(id, payload, body),
    ensures
        ({
            let pl: int = vsize(data_len_of(id, payload) as u32) + body.len();
            vparse(comp_frame_with(id, payload, body)) == Ok::<(u32, int), CodecError>(
                (pl as u32, vsize(pl as u32)),
            ) && comp_frame_with(id, payload, body).len() == vsize(pl as u32) + pl
        }),
{
    let dlu: u32 = data_len_of(id, payload) as u32;
    let pl: int = vsize(dlu) + body.len();
    let plu: u32 = pl as u32;
    let t1 = venc(dlu) + body;
    assert(comp_frame_with(id, payload, body) =~= venc(plu) + t1);
    lemma_vparse_of_venc(plu, t1);
}

/// Underflow guard, plain layout: a frame whose length prefix is smaller
/// than the encoded size of its identifier is a protocol failure — the
/// reader rejects it rather than letting the length arithmetic underflow.
pub proof fn lemma_underflow_guard_plain(s: Seq<u8>)
    requires
        vparse(s) is Ok,
        vparse(s.skip(vparse(s)->Ok_0.1)) is Ok,
        i32_of_u32(vparse(s)->Ok_0.0) < vsize(vparse(s.skip(vparse(s)->Ok_0.1))->Ok_0.0),
    ensures
        parse_plain(s) == Err::<(i32, Seq<u8>, int), CodecError>(CodecError::Protocol),
{
}

/// Underflow guard, compressed layout: a frame whose length prefix is
/// smaller than the encoded size of its declared content length is a
/// protocol failure.
pub proof fn lemma_underflow_guard_comp(s: Seq<u8>)
    requires
        vparse(s) is Ok,
        vparse(s.skip(vparse(s)->Ok_0.1)) is Ok,
        i32_of_u32(vparse(s)->Ok_0.0) < vsize(vparse(s.skip(vparse(s)->Ok_0.1))->Ok_0.0),
    ensures
        parse_comp_header(s) == Err::<(int, Seq<u8>, int), CodecError>(CodecError::Protocol),
{
}

/// A sink that packets can be framed onto.
pub trait PacketWrite {
    /// The bytes the sink holds.
    spec fn sink_view(&self) -> Seq<u8>;

    /// Frames `pack` and appends the frame to the sink — the plain layout,
    /// or the compressed one when `compression` holds — and returns the
    /// exact number of bytes appended. The plain layout cannot fail; the
    /// compressed one fails exactly when the compressed block is too large
    /// for its signed 32-bit length field, a protocol failure.
    fn write_packet(&mut self, pack: &Packet, compression: bool) -> (r: Result<usize, CodecError>)
        requires
            plain_fits(pack@.id, pack@.payload),
        ensures
            !compression ==> r is Ok,
            compression ==> (r is Ok <==> comp_fits(
                pack@.id,
                pack@.payload,
                deflate_of(body_of(pack@.id, pack@.payload)),
            )),
            (!compression && r is Ok) ==> final(self).sink_view() == old(self).sink_view()
                + plain_frame(pack@.id, pack@.payload) && r->Ok_0 == plain_frame(
                pack@.id,
                pack@.payload,
            ).len(),
            (compression && r is Ok) ==> final(self).sink_view() == old(self).sink_view()
                + comp_frame(pack@.id, pack@.payload) && r->Ok_0 == comp_frame(
                pack@.id,
                pack@.payload,
            ).len(),
            r is Err ==> compression && final(self).sink_view() == old(self).sink_view()
                && r->Err_0 == CodecError::Protocol,
    ;
}

/// A source that packets can be decoded from. Whether a frame is
/// compressed is not self-described; the caller supplies the flag
/// negotiated out of band.
pub trait PacketRead {
    /// The bytes the source holds.
    spec fn source_view(&self) -> Seq<u8>;

    /// Decodes one frame from the front of the source, under the given
    /// compression flag, into a packet. The format does not self-describe
    /// compression, and a wrong flag is not always detectable: a compressed
    /// frame is itself a well-formed plain frame (its second varint read as
    /// the identifier, the compressed block as the payload), so reading it
    /// with `comp == false` succeeds with that wrong packet. In the other
    /// direction a plain payload is typically not a valid zlib stream and
    /// decoding fails with a compression failure, but nothing in the layout
    /// rules it out.
    fn read_packet(&mut self, comp: bool) -> (r: Result<Packet, CodecError>)
        ensures
            !comp ==> (match parse_plain(old(self).source_view()) {
                Ok((id, payload, n)) => r is Ok && r->Ok_0@.id == id && r->Ok_0@.payload == payload
                    && final(self).source_view() == old(self).source_view().skip(n),
                Err(e) => r is Err && r->Err_0 == e,
            }),
            comp ==> (match parse_comp_header(old(self).source_view()) {
                Ok((dl, body, n)) => {
                    &&& final(self).source_view() == old(self).source_view().skip(n)
                    &&& (forall|c: Seq<u8>|
                        body == #[trigger] deflate_of(c) ==> (match parse_content(c, dl) {
                            Ok((id, payload)) => r is Ok && r->Ok_0@.id == id
                                && r->Ok_0@.payload == payload,
                            Err(e) => r is Err && r->Err_0 == e,
                        }))
                    &&& (r is Ok ==> vsize32(r->Ok_0@.id) + r->Ok_0@.payload.len() == dl)
                    &&& (r is Err ==> r->Err_0 == CodecError::Compression || (exists|c: Seq<u8>|
                        #[trigger] parse_content(c, dl) == Err::<(i32, Seq<u8>), CodecError>(
                            r->Err_0,
                        )))
                },
                Err(e) => r is Err && r->Err_0 == e,
            }),
    ;
}

impl PacketWrite for ByteStream {
    open spec fn sink_view(&self) -> Seq<u8> {
        self@
    }

    fn write_packet(&mut self, pack: &Packet, compression: bool) -> (r: Result<
        usize,
        CodecError,
    >) {
        let payload = pack.payload_to_vec();
        let id_size = varint_size(pack.get_id());
        proof {
            lemma_venc_len(u32_of_i32(pack@.id));
        }
        let data_length = id_size + payload.len();
        proof {
            lemma_venc_len(u32_of_i32(data_length as i32));
        }
        if !compression {
            let n1 = write_varint(self, data_length as i32);
            let n2 = write_varint(self, pack.get_id());
            self.write_bytes(payload.as_slice());
            proof {
                assert(old(self)@ + venc32(data_length as i32) + venc32(pack@.id) + payload@
                    =~= old(self)@ + plain_frame(pack@.id, pack@.payload));
            }
            Ok(n1 + n2 + payload.len())
        } else {
            let mut content = ByteStream::new();
            write_varint(&mut content, pack.get_id());
            content.write_bytes(payload.as_slice());
            proof {
                assert(Seq::<u8>::empty() + venc32(pack@.id) + payload@ =~= body_of(
                    pack@.id,
                    pack@.payload,
                ));
            }
            let content_vec = content.to_vec();
            let body = match zlib_compress(&content_vec) {
                Ok(v) => v,
                Err(e) => {
                    return Err(e);
                },
            };
            let dl_size = varint_size(data_length as i32);
            proof {
                lemma_venc_len(u32_of_i32(data_length as i32));
            }
            if body.len() > 0x7fff_ffffusize - dl_size {
                return Err(CodecError::Protocol);
            }
            let packet_length = dl_size + body.len();
            proof {
                lemma_venc_len(u32_of_i32(packet_length as i32));
            }
            let n1 = write_varint(self, packet_length as i32);
            let n2 = write_varint(self, data_length as i32);
            self.write_bytes(body.as_slice());
            proof {
                assert(old(self)@ + venc32(packet_length as i32) + venc32(data_length as i32)
                    + body@ =~= old(self)@ + comp_frame(pack@.id, pack@.payload));
            }
            Ok(n1 + n2 + body.len())
        }
    }
}

impl PacketRead for ByteStream {
    open spec fn source_view(&self) -> Seq<u8> {
        self@
    }

    fn read_packet(&mut self, comp: bool) -> (r: Result<Packet, CodecError>) {
        let ghost orig: Seq<u8> = self@;
        proof {
            lemma_vparse_bounds(orig);
        }
        let pl_i = match read_varint(self) {
            Ok(v) => v,
            Err(e) => {
                return Err(e);
            },
        };
        if pl_i < 0 {
            return Err(CodecError::Protocol);
        }
        let pl = pl_i as usize;
        let ghost n1: int = vparse(orig)->Ok_0.1;
        proof {
            lemma_vparse_bounds(orig.skip(n1));
        }
        let second = match read_varint(self) {
            Ok(v) => v,
            Err(e) => {
                return Err(e);
            },
        };
        let ghost n2: int = vparse(orig.skip(n1))->Ok_0.1;
        proof {
            lemma_id_cast_roundtrip(second, vparse(orig.skip(n1))->Ok_0.0);
            assert(orig.skip(n1).skip(n2) =~= orig.skip(n1 + n2));
        }
        if comp {
            if second < 0 {
                return Err(CodecError::Protocol);
            }
            let dl_size = varint_size(second);
            if pl < dl_size {
                return Err(CodecError::Protocol);
            }
            let body = match self.read_bytes(pl - dl_size) {
                Some(v) => v,
                None => {
                    return Err(CodecError::UnexpectedEnd);
                },
            };
            proof {
                let k: int = pl - dl_size;
                assert(orig.skip(n1 + n2).take(k) =~= orig.subrange(n1 + n2, n1 + n2 + k));
                assert(orig.skip(n1 + n2).skip(k) =~= orig.skip(n1 + n2 + k));
            }
            let decoded = match zlib_decompress(&body) {
                Ok(v) => v,
                Err(e) => {
                    return Err(e);
                },
            };
            let out = packet_from_content(&decoded, second);
            proof {
                if out is Err {
                    assert(parse_content(decoded@, second as int) == Err::<
                        (i32, Seq<u8>),
                        CodecError,
                    >(out->Err_0));
                }
            }
            out
        } else {
            let id_size = varint_size(second);
            if pl < id_size {
                return Err(CodecError::Protocol);
            }
            let payload = match self.read_bytes(pl - id_size) {
                Some(v) => v,
                None => {
                    return Err(CodecError::UnexpectedEnd);
                },
            };
            proof {
                let k: int = pl - id_size;
                assert(orig.skip(n1 + n2).take(k) =~= orig.subrange(n1 + n2, n1 + n2 + k));
                assert(orig.skip(n1 + n2).skip(k) =~= orig.skip(n1 + n2 + k));
            }
            let mut res = Packet::new(second);
            res.write(payload.as_slice());
            proof {
                assert(Seq::<u8>::empty() + payload@ =~= payload@);
            }
            Ok(res)
        }
    }
}

} // verus!
