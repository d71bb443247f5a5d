//! The reading half: framed, optionally encrypted, optionally compressed
//! packets decoded from a byte stream.
//!
//! The transport is driven by the caller. Frame-length bytes are fed in one
//! at a time through `accept_length_byte` (each is decrypted before its
//! continuation bit is inspected); once the length is known the caller reads
//! that many bytes and hands them to `decode_frame`, which decrypts,
//! decompresses, and splits them into packet id and body.

use vstd::prelude::*;
use crate::types::{State, PacketDirection, Id, RawPacket, Error};
use crate::varint::{
    vi_done, vi_size, vi_value, vi_overflow, decode_varint_at, lemma_vi_accum_done,
    lemma_vi_no_term,
};
use crate::cfb8::{MinecraftCipher, cfb8_decrypt, cfb8_dec_iv, keystream_byte, iv_shift, lemma_cfb8_len};
use crate::zlib::{zlib_inflate, inflate};
use crate::util::{get_sized_buf, copy_into, vec_subrange};
use crate::bridge::Bridge;

verus! {

/// Split a plaintext data region into packet id and body: a VarInt id at the
/// front, the remainder the body.
pub open spec fn parse_packet(f: Seq<u8>) -> Result<(u32, Seq<u8>), Error> {
    if vi_done(f) {
        Ok((vi_value(f), f.skip(vi_size(f) as int)))
    } else if f.len() < 5 {
        Err(Error::UnexpectedEof)
    } else {
        Err(Error::VarIntOverflow)
    }
}

/// What a decrypted frame `f` decodes to. Without compression the frame is
/// the data region itself. With compression it opens with a data-length
/// VarInt: zero means the region follows uncompressed; non-zero means the
/// region is the zlib inflation of the rest, which must fit the advertised
/// length.
pub open spec fn decode_frame_spec(compressed: bool, f: Seq<u8>) -> Result<(u32, Seq<u8>), Error> {
    if !compressed {
        parse_packet(f)
    } else if vi_done(f) {
        let dv = vi_value(f);
        let rest = f.skip(vi_size(f) as int);
        if dv == 0 {
            parse_packet(rest)
        } else {
            match zlib_inflate(rest) {
                Option::None => Err(Error::InflateError),
                Option::Some(p) => if p.len() > dv {
                    Err(Error::InflateError)
                } else {
                    parse_packet(p)
                },
            }
        }
    } else if f.len() < 5 {
        Err(Error::UnexpectedEof)
    } else {
        Err(Error::VarIntOverflow)
    }
}

/// What a whole decrypted byte stream decodes to: frames in sequence, each
/// a length VarInt followed by that many bytes of frame region, every frame
/// decoding successfully and the stream ending on a frame boundary.
pub open spec fn decode_stream(compressed: bool, s: Seq<u8>) -> Option<Seq<(u32, Seq<u8>)>>
    decreases s.len(),
{
    if s.len() == 0 {
        Option::Some(Seq::empty())
    } else if vi_done(s) && vi_size(s) + vi_value(s) <= s.len() {
        let n = vi_size(s) as int;
        let ln = vi_value(s) as int;
        match decode_frame_spec(compressed, s.subrange(n, n + ln)) {
            Ok(p) => match decode_stream(compressed, s.skip(n + ln)) {
                Option::Some(rest) => Option::Some(seq![p] + rest),
                Option::None => Option::None,
            },
            Err(e) => Option::None,
        }
    } else {
        Option::None
    }
}

/// The reading half of a connection.
pub struct ReadBridge {
    state: State,
    direction: PacketDirection,
    compression_threshold: Option<i32>,
    encryption: Option<MinecraftCipher>,
    raw_buf: Vec<u8>,
    len_accum: Vec<u8>,
}

impl ReadBridge {
    /// Installed cipher invariant, and the length accumulator holds at most
    /// four continuation bytes.
    pub closed spec fn wf(&self) -> bool {
        &&& (self.encryption matches Some(c) ==> c.wf())
        &&& self.len_accum@.len() <= 4
        &&& forall|j: int| 0 <= j < self.len_accum@.len() ==> self.len_accum@[j] >= 128
    }

    /// Current protocol state.
    pub closed spec fn state_spec(&self) -> State {
        self.state
    }

    /// The direction packets this half receives travel.
    pub closed spec fn direction_spec(&self) -> PacketDirection {
        self.direction
    }

    /// Current compression threshold.
    pub closed spec fn threshold_spec(&self) -> Option<i32> {
        self.compression_threshold
    }

    /// Installed cipher, as (key, current iv register).
    pub closed spec fn cipher_spec(&self) -> Option<(Seq<u8>, Seq<u8>)> {
        match self.encryption {
            Option::None => Option::None,
            Option::Some(c) => Option::Some((c.key_spec(), c.iv_spec())),
        }
    }

    /// Decrypted frame-length bytes accumulated so far.
    pub closed spec fn accum_spec(&self) -> Seq<u8> {
        self.len_accum@
    }

    /// Length of the raw buffer (it only ever grows).
    pub closed spec fn raw_len(&self) -> nat {
        self.raw_buf@.len()
    }

    /// A new reader in state `Handshaking`, with no compression and no
    /// encryption.
    pub fn initial(direction: PacketDirection) -> (r: ReadBridge)
        ensures
            r.wf(),
            r.state_spec() == State::Handshaking,
            r.direction_spec() == direction,
            r.threshold_spec() is None,
            r.cipher_spec() is None,
            r.accum_spec() == Seq::<u8>::empty(),
            r.raw_len() == 0,
    {
        ReadBridge {
            state: State::Handshaking,
            direction,
            compression_threshold: None,
            encryption: None,
            raw_buf: Vec::new(),
            len_accum: Vec::new(),
        }
    }

    /// Exposed length of the raw buffer, for observing buffer reuse.
    pub fn raw_buf_len(&self) -> (r: usize)
        ensures
            r == self.raw_len(),
    {
        self.raw_buf.len()
    }

    /// Whether the reader sits between frames: nothing of a frame-length
    /// VarInt has been consumed. End of stream here is a clean end; end of
    /// stream mid-VarInt is an `UnexpectedEof`.
    pub fn at_frame_boundary(&self) -> (r: bool)
        ensures
            r == (self.accum_spec().len() == 0),
    {
        self.len_accum.len() == 0
    }

    /// Feed one wire byte of the frame-length VarInt. The byte is decrypted
    /// first (advancing the cipher), then inspected: a terminator completes
    /// the VarInt and yields its value; a fifth continuation byte is a
    /// `VarIntOverflow`, raised before any body byte is read.
    pub fn accept_length_byte(&mut self, b: u8) -> (r: Result<Option<u32>, Error>)
        requires
            old(self).wf(),
        ensures
            final(self).wf(),
            final(self).state_spec() == old(self).state_spec(),
            final(self).direction_spec() == old(self).direction_spec(),
            final(self).threshold_spec() == old(self).threshold_spec(),
            final(self).raw_len() == old(self).raw_len(),
            ({
                let d = match old(self).cipher_spec() {
                    Option::None => b,
                    Option::Some(ki) => b ^ keystream_byte(ki.0, ki.1),
                };
                let s = old(self).accum_spec().push(d);
                (match old(self).cipher_spec() {
                    Option::None => final(self).cipher_spec() is None,
                    Option::Some(ki) => final(self).cipher_spec() == Some(
                        (ki.0, iv_shift(ki.1, b)),
                    ),
                }) && match r {
                    Ok(Some(v)) => d < 128 && vi_done(s) && v == vi_value(s) && final(self).accum_spec() == Seq::<u8>::empty(),
                    Ok(None) => d >= 128 && s.len() < 5 && final(self).accum_spec() == s,
                    Err(e) => e == Error::VarIntOverflow && d >= 128 && s.len() == 5
                        && vi_overflow(s) && final(self).accum_spec() == Seq::<u8>::empty(),
                }
            }),
    {
        let d: u8 = match &mut self.encryption {
            Some(c) => c.decrypt_byte(b),
            None => b,
        };
        self.len_accum.push(d);
        let ghost s = self.len_accum@;
        if d < 128 {
            proof {
                lemma_vi_accum_done(s);
            }
            let alen: usize = self.len_accum.len();
            proof {
                assert(self.len_accum@.subrange(0, alen as int) =~= s);
            }
            let res = decode_varint_at(&self.len_accum, 0, alen);
            self.len_accum.clear();
            match res {
                Ok((v, _n)) => Ok(Some(v)),
                Err(e) => {
                    proof {
                        assert(false);
                    }
                    Err(e)
                },
            }
        } else if self.len_accum.len() == 5 {
            proof {
                lemma_vi_no_term(s, 5);
            }
            self.len_accum.clear();
            Err(Error::VarIntOverflow)
        } else {
            Ok(None)
        }
    }

    /// Decode one frame of `end - start` bytes taken from `input`: stage it
    /// in the raw buffer, decrypt it if encryption is enabled, undo
    /// compression if enabled, and split the data region into id and body.
    /// The raw buffer never shrinks.
    pub fn decode_frame(&mut self, input: &Vec<u8>, start: usize, end: usize) -> (r: Result<
        RawPacket,
        Error,
    >)
        requires
            old(self).wf(),
            start <= end <= input@.len(),
        ensures
            final(self).wf(),
            final(self).state_spec() == old(self).state_spec(),
            final(self).direction_spec() == old(self).direction_spec(),
            final(self).threshold_spec() == old(self).threshold_spec(),
            final(self).accum_spec() == old(self).accum_spec(),
            final(self).raw_len() >= old(self).raw_len(),
            final(self).raw_len() >= end - start,
            ({
                let cfr = input@.subrange(start as int, end as int);
                let f = match old(self).cipher_spec() {
                    Option::None => cfr,
                    Option::Some(ki) => cfb8_decrypt(ki.0, ki.1, cfr),
                };
                (match old(self).cipher_spec() {
                    Option::None => final(self).cipher_spec() is None,
                    Option::Some(ki) => final(self).cipher_spec() == Some(
                        (ki.0, cfb8_dec_iv(ki.0, ki.1, cfr)),
                    ),
                }) && match r {
                    Ok(p) => decode_frame_spec(old(self).threshold_spec() is Some, f) == Ok::<
                        (u32, Seq<u8>),
                        Error,
                    >((p.id.id as u32, p.body@)) && p.id.state == old(self).state_spec()
                        && p.id.direction == old(self).direction_spec(),
                    Err(e) => decode_frame_spec(old(self).threshold_spec() is Some, f) == Err::<
                        (u32, Seq<u8>),
                        Error,
                    >(e),
                }
            }),
    {
        let n: usize = end - start;
        let ghost cfr = input@.subrange(start as int, end as int);
        get_sized_buf(&mut self.raw_buf, n);
        copy_into(&mut self.raw_buf, 0, input, start, end);
        proof {
            assert(self.raw_buf@.subrange(0, n as int) =~= cfr);
        }
        match &mut self.encryption {
            Some(c) => {
                c.decrypt_range(&mut self.raw_buf, 0, n);
            },
            None => {},
        }
        let ghost f = match old(self).cipher_spec() {
            Option::None => cfr,
            Option::Some(ki) => cfb8_decrypt(ki.0, ki.1, cfr),
        };
        proof {
            match old(self).cipher_spec() {
                Option::Some(ki) => lemma_cfb8_len(ki.0, ki.1, cfr),
                Option::None => {},
            }
            assert(self.raw_buf@.subrange(0, n as int) =~= f);
        }
        let compressed = self.compression_threshold.is_some();
        if !compressed {
            self.finish_packet_from_raw(0, n, Ghost(f))
        } else {
            match decode_varint_at(&self.raw_buf, 0, n) {
                Err(e) => Err(e),
                Ok((dv, dn)) => {
                    proof {
                        assert(f.skip(vi_size(f) as int) =~= self.raw_buf@.subrange(
                            dn as int,
                            n as int,
                        ));
                    }
                    if dv == 0 {
                        self.finish_packet_from_raw(dn, n, Ghost(f.skip(vi_size(f) as int)))
                    } else {
                        let payload = vec_subrange(&self.raw_buf, dn, n);
                        match inflate(&payload, dv as usize) {
                            Err(e) => Err(e),
                            Ok(pl) => {
                                if pl.len() > dv as usize {
                                    return Err(Error::InflateError);
                                }
                                let pn: usize = pl.len();
                                proof {
                                    assert(pl@.subrange(0, pn as int) =~= pl@);
                                }
                                match decode_varint_at(&pl, 0, pn) {
                                    Err(e) => Err(e),
                                    Ok((v, sz)) => {
                                        let body = vec_subrange(&pl, sz, pn);
                                        proof {
                                            assert(pl@.skip(vi_size(pl@) as int) =~= pl@.subrange(
                                                sz as int,
                                                pn as int,
                                            ));
                                            let vv = v;
                                            assert((vv as i32) as u32 == vv) by (bit_vector);
                                        }
                                        Ok(
                                            RawPacket {
                                                id: Id {
                                                    state: self.state,
                                                    direction: self.direction,
                                                    id: #[verifier::truncate] (v as i32),
                                                },
                                                body,
                                            },
                                        )
                                    },
                                }
                            },
                        }
                    }
                },
            }
        }
    }

    /// Split `raw_buf[at..end]`, already plaintext, into id and body.
    fn finish_packet_from_raw(&mut self, at: usize, end: usize, Ghost(f): Ghost<Seq<u8>>) -> (r:
        Result<RawPacket, Error>)
        requires
            old(self).wf(),
            at <= end <= old(self).raw_buf_view().len(),
            f == old(self).raw_buf_view().subrange(at as int, end as int),
        ensures
            *final(self) == *old(self),
            match r {
                Ok(p) => parse_packet(f) == Ok::<(u32, Seq<u8>), Error>((p.id.id as u32, p.body@))
                    && p.id.state == old(self).state_spec() && p.id.direction == old(self).direction_spec(),
                Err(e) => parse_packet(f) == Err::<(u32, Seq<u8>), Error>(e),
            },
    {
        match decode_varint_at(&self.raw_buf, at, end) {
            Err(e) => Err(e),
            Ok((v, sz)) => {
                let body = vec_subrange(&self.raw_buf, at + sz, end);
                proof {
                    assert(f.skip(vi_size(f) as int) =~= self.raw_buf@.subrange(
                        at + sz,
                        end as int,
                    ));
                    let vv = v;
                    assert((vv as i32) as u32 == vv) by (bit_vector);
                }
                Ok(
                    RawPacket {
                        id: Id {
                            state: self.state,
                            direction: self.direction,
                            id: #[verifier::truncate] (v as i32),
                        },
                        body,
                    },
                )
            },
        }
    }

    /// The raw buffer contents, for stating where a staged frame lives.
    pub closed spec fn raw_buf_view(&self) -> Seq<u8> {
        self.raw_buf@
    }
}

impl Bridge for ReadBridge {
    open spec fn bridge_state(&self) -> State {
        self.state_spec()
    }

    open spec fn bridge_threshold(&self) -> Option<i32> {
        self.threshold_spec()
    }

    open spec fn bridge_cipher(&self) -> Option<(Seq<u8>, Seq<u8>)> {
        self.cipher_spec()
    }

    open spec fn bridge_wf(&self) -> bool {
        self.wf()
    }

    open spec fn bridge_direction(&self) -> PacketDirection {
        self.direction_spec()
    }

    fn set_state(&mut self, next: State)
        ensures
            final(self).accum_spec() == old(self).accum_spec(),
            final(self).raw_len() == old(self).raw_len(),
    {
        self.state = next;
    }

    fn set_compression_threshold(&mut self, threshold: Option<i32>)
        ensures
            final(self).accum_spec() == old(self).accum_spec(),
            final(self).raw_len() == old(self).raw_len(),
    {
        self.compression_threshold = threshold;
    }

    fn enable_encryption(&mut self, key: &Vec<u8>, iv: &Vec<u8>) -> (r: Result<(), Error>)
        ensures
            final(self).accum_spec() == old(self).accum_spec(),
            final(self).raw_len() == old(self).raw_len(),
    {
        if self.encryption.is_some() {
            return Err(Error::DoubleEnableEncryption);
        }
        match MinecraftCipher::new(key, iv) {
            Ok(c) => {
                self.encryption = Some(c);
                Ok(())
            },
            Err(e) => Err(e),
        }
    }
}

} // verus!
