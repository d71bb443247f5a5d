//! The writing half: a packet is serialized, optionally compressed,
//! length-prefixed, optionally encrypted, and handed back as one contiguous
//! frame for the caller to emit.

use vstd::prelude::*;
use crate::types::{State, PacketDirection, Id, RawPacket, Error};
use crate::varint::{
    varint_encode, encode_varint, lemma_varint_round_trip, vi_done, vi_size, vi_value,
    lemma_vi_done_mono, vi_done_n,
};
use crate::cfb8::{
    MinecraftCipher, cfb8_encrypt, cfb8_enc_iv, cfb8_decrypt, cfb8_dec_iv, lemma_cfb8_round_trip,
};
use crate::reader::{decode_frame_spec, parse_packet, decode_stream};
use crate::zlib::{zlib_deflate, zlib_inflate, deflate};
use crate::util::{get_sized_buf, copy_into, vec_subrange};
use crate::bridge::Bridge;

verus! {

/// Frames longer than this after the length field are outside the protocol.
pub const MAX_DATA_LEN: usize = 0x1F_FFFF;

/// The plaintext data region of a packet: its id as a VarInt, then its body.
pub open spec fn plain_data(id: i32, body: Seq<u8>) -> Seq<u8> {
    varint_encode(id) + body
}

/// The frame region that follows the outer length VarInt. Without
/// compression it is the data region itself. With threshold `t`, a region
/// shorter than `t` is framed uncompressed behind a zero data-length byte;
/// otherwise the data length is written as a VarInt followed by the zlib
/// compression of the region.
pub open spec fn frame_region(threshold: Option<i32>, id: i32, body: Seq<u8>) -> Seq<u8> {
    let p = plain_data(id, body);
    match threshold {
        Option::None => p,
        Option::Some(t) => if (p.len() as int) < t as int {
            seq![0u8] + p
        } else {
            varint_encode(p.len() as i32) + zlib_deflate(p)
        },
    }
}

/// One complete wire frame before encryption: the region's length as a
/// VarInt, then the region.
pub open spec fn frame_bytes(threshold: Option<i32>, id: i32, body: Seq<u8>) -> Seq<u8> {
    varint_encode(frame_region(threshold, id, body).len() as i32) + frame_region(
        threshold,
        id,
        body,
    )
}

/// The writing half of a connection.
pub struct WriteBridge {
    state: State,
    direction: PacketDirection,
    compression_threshold: Option<i32>,
    encryption: Option<MinecraftCipher>,
    raw_buf: Vec<u8>,
}

impl WriteBridge {
    /// Installed cipher invariant; a configured threshold is non-negative.
    pub closed spec fn wf(&self) -> bool {
        &&& (self.encryption matches Some(c) ==> c.wf())
        &&& (self.compression_threshold matches Some(t) ==> t >= 0)
    }

    /// Current protocol state.
    pub closed spec fn state_spec(&self) -> State {
        self.state
    }

    /// The direction packets this half emits travel.
    pub closed spec fn direction_spec(&self) -> PacketDirection {
        self.direction
    }

    /// Current compression threshold.
    pub closed spec fn threshold_spec(&self) -> Option<i32> {
        self.compression_threshold
    }

    /// Installed cipher, as (key, current iv register).
    pub closed spec fn cipher_spec(&self) -> Option<(Seq<u8>, Seq<u8>)> {
        match self.encryption {
            Option::None => Option::None,
            Option::Some(c) => Option::Some((c.key_spec(), c.iv_spec())),
        }
    }

    /// Length of the raw staging buffer (it only ever grows).
    pub closed spec fn raw_len(&self) -> nat {
        self.raw_buf@.len()
    }

    /// A new writer in state `Handshaking`, with no compression and no
    /// encryption.
    pub fn initial(direction: PacketDirection) -> (r: WriteBridge)
        ensures
            r.wf(),
            r.state_spec() == State::Handshaking,
            r.direction_spec() == direction,
            r.threshold_spec() is None,
            r.cipher_spec() is None,
            r.raw_len() == 0,
    {
        WriteBridge {
            state: State::Handshaking,
            direction,
            compression_threshold: None,
            encryption: None,
            raw_buf: Vec::new(),
        }
    }

    /// The writer's current protocol state.
    pub fn state(&self) -> (r: State)
        ensures
            r == self.state_spec(),
    {
        self.state
    }

    /// The direction packets this half emits travel.
    pub fn direction(&self) -> (r: PacketDirection)
        ensures
            r == self.direction_spec(),
    {
        self.direction
    }

    /// Exposed length of the raw staging buffer, for observing buffer reuse.
    pub fn raw_buf_len(&self) -> (r: usize)
        ensures
            r == self.raw_len(),
    {
        self.raw_buf.len()
    }

    /// Serialize one raw packet into a complete wire frame: validate its id
    /// tag against the writer's direction and state, stage id and body,
    /// apply the compression branch, prefix the frame length, and encrypt
    /// the whole frame if encryption is enabled. Returns the bytes to emit;
    /// the transport is never touched on an error, and the cipher advances
    /// only over emitted bytes. The staging buffer never shrinks.
    pub fn write_raw_packet(&mut self, packet: &RawPacket) -> (r: Result<Vec<u8>, Error>)
        requires
            old(self).wf(),
            packet.body@.len() <= MAX_DATA_LEN as nat,
        ensures
            final(self).wf(),
            final(self).state_spec() == old(self).state_spec(),
            final(self).direction_spec() == old(self).direction_spec(),
            final(self).threshold_spec() == old(self).threshold_spec(),
            final(self).raw_len() >= old(self).raw_len(),
            ({
                let fb = frame_bytes(old(self).threshold_spec(), packet.id.id, packet.body@);
                let dir_ok = packet.id.direction == old(self).direction_spec();
                let state_ok = packet.id.state == old(self).state_spec();
                let p = plain_data(packet.id.id, packet.body@);
                match r {
                    Ok(out) => dir_ok && state_ok && final(self).raw_len() >= p.len() && ((
                    old(self).threshold_spec() matches Some(t) && p.len() >= t) ==> zlib_inflate(
                        zlib_deflate(p),
                    ) == Some(p) && zlib_deflate(p).len() <= MAX_DATA_LEN as nat) && (
                    match old(self).cipher_spec() {
                        Option::None => out@ == fb && final(self).cipher_spec() is None,
                        Option::Some(ki) => out@ == cfb8_encrypt(ki.0, ki.1, fb) && final(self).cipher_spec() == Some((ki.0, cfb8_enc_iv(ki.0, ki.1, fb))),
                    }),
                    Err(e) => final(self).cipher_spec() == old(self).cipher_spec() && ((e
                        == Error::DirectionMismatch && !dir_ok) || (e == Error::StateMismatch
                        && dir_ok && !state_ok) || (e == Error::DeflateError && dir_ok && state_ok
                        && (old(self).threshold_spec() matches Some(t) && p.len() >= t)
                        && zlib_deflate(p).len() > MAX_DATA_LEN as nat)),
                }
            }),
    {
        if packet.id.direction != self.direction {
            return Err(Error::DirectionMismatch);
        }
        if packet.id.state != self.state {
            return Err(Error::StateMismatch);
        }
        let id_bytes = encode_varint(packet.id.id);
        let id_len: usize = id_bytes.len();
        let body_len: usize = packet.body.len();
        let data_len: usize = id_len + body_len;
        let ghost plain = plain_data(packet.id.id, packet.body@);
        get_sized_buf(&mut self.raw_buf, data_len);
        copy_into(&mut self.raw_buf, 0, &id_bytes, 0, id_len);
        copy_into(&mut self.raw_buf, id_len, &packet.body, 0, body_len);
        proof {
            assert(self.raw_buf@.subrange(0, data_len as int) =~= plain);
        }
        let region: Vec<u8> = match self.threshold_copy() {
            None => vec_subrange(&self.raw_buf, 0, data_len),
            Some(t) => {
                if data_len < t as usize {
                    let mut rg = vec_subrange(&self.raw_buf, 0, data_len);
                    rg.insert(0, 0);
                    proof {
                        assert(rg@ =~= seq![0u8] + plain);
                    }
                    rg
                } else {
                    let plain_vec = vec_subrange(&self.raw_buf, 0, data_len);
                    let payload = deflate(&plain_vec);
                    if payload.len() > MAX_DATA_LEN {
                        return Err(Error::DeflateError);
                    }
                    let mut rg = encode_varint(data_len as i32);
                    rg.extend_from_slice(payload.as_slice());
                    proof {
                        assert(rg@ =~= varint_encode(data_len as i32) + zlib_deflate(plain));
                    }
                    rg
                }
            },
        };
        proof {
            assert(region@ == frame_region(old(self).threshold_spec(), packet.id.id, packet.body@));
        }
        let mut out = encode_varint(region.len() as i32);
        out.extend_from_slice(region.as_slice());
        proof {
            assert(out@ =~= varint_encode(region@.len() as i32) + region@);
            assert(out@ == frame_bytes(old(self).threshold_spec(), packet.id.id, packet.body@));
        }
        match &mut self.encryption {
            Some(c) => {
                c.encrypt(&mut out);
            },
            None => {},
        }
        Ok(out)
    }

    /// The current threshold as a plain copy.
    fn threshold_copy(&self) -> (r: Option<i32>)
        ensures
            r == self.threshold_spec(),
    {
        match &self.compression_threshold {
            Some(t) => Some(*t),
            None => None,
        }
    }
}

impl Bridge for WriteBridge {
    open spec fn bridge_state(&self) -> State {
        self.state_spec()
    }

    open spec fn bridge_threshold(&self) -> Option<i32> {
        self.threshold_spec()
    }

    open spec fn bridge_cipher(&self) -> Option<(Seq<u8>, Seq<u8>)> {
        self.cipher_spec()
    }

    open spec fn bridge_wf(&self) -> bool {
        self.wf()
    }

    open spec fn bridge_direction(&self) -> PacketDirection {
        self.direction_spec()
    }

    fn set_state(&mut self, next: State)
        ensures
            final(self).raw_len() == old(self).raw_len(),
    {
        self.state = next;
    }

    fn set_compression_threshold(&mut self, threshold: Option<i32>)
        ensures
            final(self).raw_len() == old(self).raw_len(),
    {
        self.compression_threshold = threshold;
    }

    fn enable_encryption(&mut self, key: &Vec<u8>, iv: &Vec<u8>) -> (r: Result<(), Error>)
        ensures
            final(self).raw_len() == old(self).raw_len(),
    {
        if self.encryption.is_some() {
            return Err(Error::DoubleEnableEncryption);
        }
        match MinecraftCipher::new(key, iv) {
            Ok(c) => {
                self.encryption = Some(c);
                Ok(())
            },
            Err(e) => Err(e),
        }
    }
}

/// Frame round trip: a frame built by the writer parses back, behind its
/// length VarInt, to exactly the packet id and body it was built from, in
/// every compression mode. For the compressed mode this rests on zlib's
/// promise that inflating what deflate produced yields the input, and on the
/// writer's bound on the compressed size.
pub proof fn lemma_frame_round_trip(threshold: Option<i32>, id: i32, body: Seq<u8>)
    requires
        body.len() <= MAX_DATA_LEN as nat,
        threshold matches Some(t) ==> t >= 0,
        (threshold matches Some(t) && plain_data(id, body).len() >= t) ==> zlib_inflate(
            zlib_deflate(plain_data(id, body)),
        ) == Some(plain_data(id, body)) && zlib_deflate(plain_data(id, body)).len()
            <= MAX_DATA_LEN as nat,
    ensures
        ({
            let region = frame_region(threshold, id, body);
            let fb = frame_bytes(threshold, id, body);
            &&& vi_done(fb)
            &&& vi_value(fb) == region.len()
            &&& vi_size(fb) + region.len() == fb.len()
            &&& fb.skip(vi_size(fb) as int) == region
            &&& decode_frame_spec(threshold is Some, region) == Ok::<(u32, Seq<u8>), Error>(
                (id as u32, body),
            )
        }),
{
    let p = plain_data(id, body);
    lemma_varint_round_trip(id, body);
    let w0 = vi_value(p);
    assert(w0 == id as u32) by (bit_vector)
        requires
            w0 as i32 == id,
    ;
    let region = frame_region(threshold, id, body);
    match threshold {
        Option::None => {
            assert(decode_frame_spec(false, region) == Ok::<(u32, Seq<u8>), Error>(
                (id as u32, body),
            ));
        },
        Option::Some(t) => {
            if (p.len() as int) < t as int {
                assert(region == seq![0u8] + p);
                assert(region[0] == 0);
                assert(vi_done_n(region, 1));
                lemma_vi_done_mono(region, 1, 5);
                assert(vi_size(region) == 1);
                assert(vi_value(region) == 0);
                assert(region.skip(1) =~= p);
                assert(decode_frame_spec(true, region) == parse_packet(p));
            } else {
                let dl = p.len() as i32;
                assert(dl as int == p.len() as int);
                lemma_varint_round_trip(dl, zlib_deflate(p));
                assert(region == varint_encode(dl) + zlib_deflate(p));
                let dv = vi_value(region);
                assert(dv == dl as u32) by (bit_vector)
                    requires
                        dv as i32 == dl,
                ;
                assert(dv as int == p.len() as int);
                assert(dv != 0);
                assert(region.skip(vi_size(region) as int) == zlib_deflate(p));
                assert(zlib_inflate(zlib_deflate(p)) == Some(p));
                assert(!(p.len() > dv));
                assert(decode_frame_spec(true, region) == parse_packet(p));
            }
        },
    }
    let fb = frame_bytes(threshold, id, body);
    let rl = region.len() as i32;
    assert(rl as int == region.len() as int);
    lemma_varint_round_trip(rl, region);
    let w = vi_value(fb);
    assert(w == rl as u32) by (bit_vector)
        requires
            w as i32 == rl,
    ;
    assert(w as int == region.len() as int);
}

/// A frame parses the same with any further stream bytes behind it: the
/// length VarInt reads back the region's length, the region sits right
/// after it, and the rest of the stream follows.
pub proof fn lemma_frame_parse_in_stream(
    threshold: Option<i32>,
    id: i32,
    body: Seq<u8>,
    rest: Seq<u8>,
)
    requires
        body.len() <= MAX_DATA_LEN as nat,
        threshold matches Some(t) ==> t >= 0,
        (threshold matches Some(t) && plain_data(id, body).len() >= t) ==> zlib_inflate(
            zlib_deflate(plain_data(id, body)),
        ) == Some(plain_data(id, body)) && zlib_deflate(plain_data(id, body)).len()
            <= MAX_DATA_LEN as nat,
    ensures
        ({
            let region = frame_region(threshold, id, body);
            let s = frame_bytes(threshold, id, body) + rest;
            &&& vi_done(s)
            &&& vi_value(s) == region.len()
            &&& vi_size(s) + region.len() + rest.len() == s.len()
            &&& s.subrange(vi_size(s) as int, vi_size(s) + region.len() as int) == region
            &&& s.skip(vi_size(s) + region.len() as int) == rest
            &&& decode_frame_spec(threshold is Some, region) == Ok::<(u32, Seq<u8>), Error>(
                (id as u32, body),
            )
        }),
{
    lemma_frame_round_trip(threshold, id, body);
    let region = frame_region(threshold, id, body);
    let p = plain_data(id, body);
    lemma_varint_round_trip(id, body);
    assert(p.len() <= MAX_DATA_LEN as nat + 5);
    match threshold {
        Option::None => {},
        Option::Some(t) => {
            if !((p.len() as int) < t as int) {
                lemma_varint_round_trip(p.len() as i32, zlib_deflate(p));
            }
        },
    }
    assert(region.len() <= MAX_DATA_LEN as nat + 11);
    let rl = region.len() as i32;
    assert(rl as int == region.len() as int);
    lemma_varint_round_trip(rl, region + rest);
    let s = frame_bytes(threshold, id, body) + rest;
    assert(s =~= varint_encode(rl) + (region + rest));
    let w = vi_value(s);
    assert(w == rl as u32) by (bit_vector)
        requires
            w as i32 == rl,
    ;
    assert(w as int == region.len() as int);
    let n = vi_size(s) as int;
    assert(s.skip(n) == region + rest);
    assert(s.subrange(n, n + region.len()) =~= region);
    assert(s.skip(n + region.len()) =~= rest);
}

/// One cipher stream, many frames: a sequence of packets framed back to
/// back by the writer.
pub open spec fn stream_bytes(threshold: Option<i32>, ps: Seq<(i32, Seq<u8>)>) -> Seq<u8>
    decreases ps.len(),
{
    if ps.len() == 0 {
        Seq::empty()
    } else {
        frame_bytes(threshold, ps.first().0, ps.first().1) + stream_bytes(
            threshold,
            ps.drop_first(),
        )
    }
}

/// Stream round trip: the concatenation of the frames the writer emits for
/// a sequence of packets decodes back to exactly those packets' ids and
/// bodies, in order, in every compression mode.
pub proof fn lemma_stream_round_trip(threshold: Option<i32>, ps: Seq<(i32, Seq<u8>)>)
    requires
        threshold matches Some(t) ==> t >= 0,
        forall|i: int|
            0 <= i < ps.len() ==> (#[trigger] ps[i]).1.len() <= MAX_DATA_LEN as nat,
        forall|i: int|
            0 <= i < ps.len() ==> ((threshold matches Some(t) && plain_data(
                (#[trigger] ps[i]).0,
                ps[i].1,
            ).len() >= t) ==> zlib_inflate(zlib_deflate(plain_data(ps[i].0, ps[i].1))) == Some(
                plain_data(ps[i].0, ps[i].1),
            ) && zlib_deflate(plain_data(ps[i].0, ps[i].1)).len() <= MAX_DATA_LEN as nat),
    ensures
        decode_stream(threshold is Some, stream_bytes(threshold, ps)) == Some(
            ps.map_values(|p: (i32, Seq<u8>)| (p.0 as u32, p.1)),
        ),
    decreases ps.len(),
{
    let f = |p: (i32, Seq<u8>)| (p.0 as u32, p.1);
    if ps.len() == 0 {
        assert(ps.map_values(f) =~= Seq::<(u32, Seq<u8>)>::empty());
    } else {
        let rest = ps.drop_first();
        let rest_s = stream_bytes(threshold, rest);
        assert(ps[0] == ps.first());
        lemma_frame_parse_in_stream(threshold, ps.first().0, ps.first().1, rest_s);
        assert forall|i: int| 0 <= i < rest.len() implies (#[trigger] rest[i]).1.len()
            <= MAX_DATA_LEN as nat by {
            assert(rest[i] == ps[i + 1]);
        }
        assert forall|i: int| 0 <= i < rest.len() implies ((threshold matches Some(t)
            && plain_data((#[trigger] rest[i]).0, rest[i].1).len() >= t) ==> zlib_inflate(
            zlib_deflate(plain_data(rest[i].0, rest[i].1)),
        ) == Some(plain_data(rest[i].0, rest[i].1)) && zlib_deflate(
            plain_data(rest[i].0, rest[i].1),
        ).len() <= MAX_DATA_LEN as nat) by {
            assert(rest[i] == ps[i + 1]);
        }
        lemma_stream_round_trip(threshold, rest);
        let s = stream_bytes(threshold, ps);
        let region = frame_region(threshold, ps.first().0, ps.first().1);
        let n = vi_size(s) as int;
        assert(s.len() != 0);
        assert(s.subrange(n, n + vi_value(s)) == region);
        assert(s.skip(n + vi_value(s)) == rest_s);
        assert(decode_stream(threshold is Some, s) == Some(
            seq![(ps.first().0 as u32, ps.first().1)] + rest.map_values(f),
        ));
        assert(seq![(ps.first().0 as u32, ps.first().1)] + rest.map_values(f) =~= ps.map_values(
            f,
        ));
    }
}

/// Stream round trip under encryption: the writer's whole emitted cipher
/// stream, decrypted by a cipher built from the same key and iv, is the
/// plaintext stream, the cipher states end identical, and the stream
/// decodes back to the written packets in order.
pub proof fn lemma_encrypted_stream_round_trip(
    key: Seq<u8>,
    iv: Seq<u8>,
    threshold: Option<i32>,
    ps: Seq<(i32, Seq<u8>)>,
)
    requires
        threshold matches Some(t) ==> t >= 0,
        forall|i: int|
            0 <= i < ps.len() ==> (#[trigger] ps[i]).1.len() <= MAX_DATA_LEN as nat,
        forall|i: int|
            0 <= i < ps.len() ==> ((threshold matches Some(t) && plain_data(
                (#[trigger] ps[i]).0,
                ps[i].1,
            ).len() >= t) ==> zlib_inflate(zlib_deflate(plain_data(ps[i].0, ps[i].1))) == Some(
                plain_data(ps[i].0, ps[i].1),
            ) && zlib_deflate(plain_data(ps[i].0, ps[i].1)).len() <= MAX_DATA_LEN as nat),
    ensures
        ({
            let s = stream_bytes(threshold, ps);
            &&& cfb8_decrypt(key, iv, cfb8_encrypt(key, iv, s)) == s
            &&& cfb8_dec_iv(key, iv, cfb8_encrypt(key, iv, s)) == cfb8_enc_iv(key, iv, s)
            &&& decode_stream(threshold is Some, s) == Some(
                ps.map_values(|p: (i32, Seq<u8>)| (p.0 as u32, p.1)),
            )
        }),
{
    lemma_cfb8_round_trip(key, iv, stream_bytes(threshold, ps));
    lemma_stream_round_trip(threshold, ps);
}

/// Frame round trip under encryption: the emitted ciphertext, decrypted by
/// a cipher built from the same key and iv, is the plaintext frame, the two
/// cipher states end identical, and the frame parses back to the packet it
/// was built from.
pub proof fn lemma_encrypted_frame_round_trip(
    key: Seq<u8>,
    iv: Seq<u8>,
    threshold: Option<i32>,
    id: i32,
    body: Seq<u8>,
)
    requires
        body.len() <= MAX_DATA_LEN as nat,
        threshold matches Some(t) ==> t >= 0,
        (threshold matches Some(t) && plain_data(id, body).len() >= t) ==> zlib_inflate(
            zlib_deflate(plain_data(id, body)),
        ) == Some(plain_data(id, body)) && zlib_deflate(plain_data(id, body)).len()
            <= MAX_DATA_LEN as nat,
    ensures
        ({
            let fb = frame_bytes(threshold, id, body);
            &&& cfb8_decrypt(key, iv, cfb8_encrypt(key, iv, fb)) == fb
            &&& cfb8_dec_iv(key, iv, cfb8_encrypt(key, iv, fb)) == cfb8_enc_iv(key, iv, fb)
            &&& decode_frame_spec(
                threshold is Some,
                frame_region(threshold, id, body),
            ) == Ok::<(u32, Seq<u8>), Error>((id as u32, body))
        }),
{
    lemma_cfb8_round_trip(key, iv, frame_bytes(threshold, id, body));
    lemma_frame_round_trip(threshold, id, body);
}

} // verus!
