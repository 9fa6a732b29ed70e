//! The connection core: framing (length prefix plus optional compression
//! sub-frame) and the optional per-direction stream cipher. The socket
//! itself lives outside the library; the functions here turn packets into
//! frame bytes and frame bytes back into packets.

use vstd::prelude::*;

use crate::error::Error;
use crate::packet::decode_packet;
use crate::packet::encode_packet;
use crate::packet::fields_encodable;
use crate::packet::FieldModel;
use crate::packet::FieldValue;
use crate::packet::models_of;
use crate::packet::spec_id_table;
use crate::packet::spec_lookup_wire;
use crate::packet::spec_packet_body;
use crate::packet::spec_packet_decoded;
use crate::packet::spec_shape_fields;
use crate::packet::Packet;
use crate::reader::Reader;
use crate::varint::varint_decoded;
use crate::varint::varnum_enc;
use crate::varint::varnum_over_limit;
use crate::varint::VarInt;
use vstd::string::StringExecFns;
use crate::Direction;
use crate::State;

verus! {

/// The hard ceiling on a frame's declared length: anything larger is a
/// corrupted stream and fatal.
pub const MAX_FRAME_LEN: i32 = 1000000000;

/// The zlib compression of a byte sequence at the default level.
pub uninterp spec fn deflate_of(data: Seq<u8>) -> Seq<u8>;

/// The zlib decompression of a byte sequence; `None` on corrupt input.
pub uninterp spec fn inflate_of(data: Seq<u8>) -> Option<Seq<u8>>;

/// Relies on flate2's `ZlibEncoder`: produces the zlib compression of the
/// input at the default level, which the matching decoder inverts. The
/// output length bound is the deflate format's: a block never expands its
/// input by more than one bit in eight (nine-bit literals at worst, and the
/// encoder falls back to stored blocks when even that would grow), plus a
/// bounded per-block and stream-wrapper overhead.
#[verifier::external_body]
fn zlib_compress(data: &Vec<u8>) -> (r: Vec<u8>)
    ensures
        r@ == deflate_of(data@),
        inflate_of(r@) == Some(data@),
        r@.len() <= data@.len() + data@.len() / 4 + 1024,
{
    let mut out = Vec::new();
    let mut enc = flate2::read::ZlibEncoder::new(
        std::io::Cursor::new(data.as_slice()),
        flate2::Compression::default(),
    );
    std::io::Read::read_to_end(&mut enc, &mut out).expect("in-memory compression cannot fail");
    out
}

/// Relies on flate2's `ZlibDecoder`: decompresses a zlib stream, reporting
/// corrupt input instead of bytes.
#[verifier::external_body]
fn zlib_decompress(data: &Vec<u8>) -> (r: Option<Vec<u8>>)
    ensures
        match r {
            Some(v) => inflate_of(data@) == Some(v@),
            None => inflate_of(data@) is None,
        },
{
    let mut out = Vec::new();
    let mut dec = flate2::read::ZlibDecoder::new(data.as_slice());
    match std::io::Read::read_to_end(&mut dec, &mut out) {
        Ok(_) => Some(out),
        Err(_) => None,
    }
}

/// The raw cipher object: cfb8's mode wrapper around aes's AES-128, which
/// Verus cannot see into (its type parameters carry outside trait bounds).
#[verifier::external_body]
pub struct CipherCore {
    inner: cfb8::Cfb8<aes::Aes128>,
}

/// The CFB-8 encryption, under the given key (doubling as the
/// initialization vector), of a whole plaintext stream.
pub uninterp spec fn cfb8_enc(key: Seq<u8>, plain: Seq<u8>) -> Seq<u8>;

/// The CFB-8 decryption, under the given key (doubling as the
/// initialization vector), of a whole ciphertext stream.
pub uninterp spec fn cfb8_dec(key: Seq<u8>, cipher_text: Seq<u8>) -> Seq<u8>;

/// One direction's stream-cipher state: the cipher object together with the
/// key, the stream it has transformed so far, and the one mode (encrypting
/// or decrypting) it is used in. CFB-8 feeds its register the output byte
/// when encrypting but the input byte when decrypting, so one cipher object
/// must only ever run in one mode for its stream state to mean anything.
pub struct StreamCipher {
    core: CipherCore,
    key: Ghost<Seq<u8>>,
    processed: Ghost<Seq<u8>>,
    encrypting: Ghost<bool>,
}

impl StreamCipher {
    /// The key this cipher was installed with.
    pub closed spec fn key(&self) -> Seq<u8> {
        self.key@
    }

    /// Every byte this cipher has transformed so far, in order.
    pub closed spec fn processed(&self) -> Seq<u8> {
        self.processed@
    }

    /// The one mode this cipher is used in: true when it encrypts.
    pub closed spec fn encrypting(&self) -> bool {
        self.encrypting@
    }
}

/// Relies on cfb8's `Cfb8::new_from_slices`, with the key doubling as the
/// initialization vector: it succeeds exactly on a 16-byte key and returns a
/// cipher that has transformed no bytes yet.
#[verifier::external_body]
fn cfb8_new(key: &Vec<u8>) -> (r: Option<CipherCore>)
    ensures
        r is Some <==> key@.len() == 16,
{
    match cfb8::cipher::NewCipher::new_from_slices(key.as_slice(), key.as_slice()) {
        Ok(inner) => Some(CipherCore { inner }),
        Err(_) => None,
    }
}

/// A fresh cipher for one direction, keyed with the given 16-byte key and
/// committed to the given mode.
fn new_stream_cipher(key: &Vec<u8>, encrypting: Ghost<bool>) -> (r: Option<StreamCipher>)
    ensures
        match r {
            Some(c) => key@.len() == 16 && c.key() == key@ && c.processed() == Seq::<u8>::empty()
                && c.encrypting() == encrypting@,
            None => key@.len() != 16,
        },
{
    match cfb8_new(key) {
        Some(core) => Some(
            StreamCipher {
                core,
                key: Ghost(key@),
                processed: Ghost(Seq::empty()),
                encrypting,
            },
        ),
        None => None,
    }
}

/// Relies on cfb8's `Cfb8::encrypt`: transforms the next bytes of the
/// plaintext stream in place. CFB-8 is a self-synchronizing stream cipher:
/// processing a stream in chunks equals processing it at once, the output
/// has the input's length, and decryption from the same starting state
/// inverts it. These whole-stream facts hold only of a cipher that has done
/// nothing but encrypt, so the mode commitment is required.
#[verifier::external_body]
fn cipher_encrypt(c: &mut StreamCipher, data: &mut Vec<u8>)
    requires
        old(c).encrypting(),
    ensures
        final(c).encrypting(),
        final(c).key() == old(c).key(),
        final(c).processed() == old(c).processed() + old(data)@,
        cfb8_enc(old(c).key(), old(c).processed() + old(data)@).len() == old(c).processed().len()
            + old(data)@.len(),
        final(data)@ == cfb8_enc(old(c).key(), old(c).processed() + old(data)@).skip(
            old(c).processed().len() as int,
        ),
        cfb8_dec(old(c).key(), cfb8_enc(old(c).key(), old(c).processed() + old(data)@)) == old(
            c,
        ).processed() + old(data)@,
{
    cfb8::cipher::AsyncStreamCipher::encrypt(&mut c.core.inner, data.as_mut_slice());
}

/// Relies on cfb8's `Cfb8::decrypt`: transforms the next bytes of the
/// ciphertext stream in place. Chunking does not matter, the output has the
/// input's length, and encryption from the same starting state inverts it.
/// These whole-stream facts hold only of a cipher that has done nothing but
/// decrypt, so the mode commitment is required.
#[verifier::external_body]
fn cipher_decrypt(c: &mut StreamCipher, data: &mut Vec<u8>)
    requires
        !old(c).encrypting(),
    ensures
        !final(c).encrypting(),
        final(c).key() == old(c).key(),
        final(c).processed() == old(c).processed() + old(data)@,
        cfb8_dec(old(c).key(), old(c).processed() + old(data)@).len() == old(c).processed().len()
            + old(data)@.len(),
        final(data)@ == cfb8_dec(old(c).key(), old(c).processed() + old(data)@).skip(
            old(c).processed().len() as int,
        ),
        cfb8_enc(old(c).key(), cfb8_dec(old(c).key(), old(c).processed() + old(data)@)) == old(
            c,
        ).processed() + old(data)@,
{
    cfb8::cipher::AsyncStreamCipher::decrypt(&mut c.core.inner, data.as_mut_slice());
}

/// The live session: the current connection state, direction of the local
/// role, protocol version, per-direction cipher slots and the compression
/// threshold (negative when compression is off). The socket itself is owned
/// by the caller; this type produces and consumes frame bytes.
pub struct Conn {
    /// The remote host name the session targets.
    pub host: String,
    /// The remote port.
    pub port: u16,
    /// The local role: always serverbound for a client.
    pub direction: Direction,
    /// The negotiated protocol version.
    pub protocol_version: i32,
    /// The current connection state; it only ever advances forward.
    pub state: State,
    /// The inbound cipher slot; installed at most once.
    pub read_cipher: Option<StreamCipher>,
    /// The outbound cipher slot; installed at most once.
    pub write_cipher: Option<StreamCipher>,
    /// Bodies longer than this are compressed; negative disables
    /// compression.
    pub compression_threshold: i32,
}

impl Conn {
    /// Whether the read-direction cipher has been installed.
    pub closed spec fn read_encrypted(&self) -> bool {
        self.read_cipher is Some
    }

    /// Whether the write-direction cipher has been installed.
    pub closed spec fn write_encrypted(&self) -> bool {
        self.write_cipher is Some
    }

    /// The read-direction cipher key.
    pub closed spec fn read_key(&self) -> Seq<u8> {
        self.read_cipher.unwrap().key()
    }

    /// The write-direction cipher key.
    pub closed spec fn write_key(&self) -> Seq<u8> {
        self.write_cipher.unwrap().key()
    }

    /// The ciphertext stream the read cipher has consumed so far.
    pub closed spec fn read_processed(&self) -> Seq<u8> {
        self.read_cipher.unwrap().processed()
    }

    /// The plaintext stream the write cipher has consumed so far.
    pub closed spec fn write_processed(&self) -> Seq<u8> {
        self.write_cipher.unwrap().processed()
    }

    /// Each installed cipher is committed to its own slot's mode: the write
    /// slot encrypts, the read slot decrypts. Installation establishes this
    /// and every operation preserves it; it rules out running one cipher
    /// object in both modes, whose stream states do not mix.
    pub open spec fn ciphers_mode_ok(&self) -> bool {
        &&& (self.write_cipher matches Some(c) ==> c.encrypting())
        &&& (self.read_cipher matches Some(c) ==> !c.encrypting())
    }

    /// A fresh session to the given host and port: handshaking state,
    /// serverbound role, no transforms.
    pub fn new(host: String, port: u16, protocol_version: i32) -> (c: Conn)
        ensures
            c.host == host,
            c.port == port,
            c.direction == Direction::Serverbound,
            c.protocol_version == protocol_version,
            c.state == State::Handshaking,
            c.compression_threshold == -1,
            !c.read_encrypted(),
            !c.write_encrypted(),
            c.ciphers_mode_ok(),
    {
        Conn {
            host,
            port,
            direction: Direction::Serverbound,
            protocol_version,
            state: State::Handshaking,
            read_cipher: None,
            write_cipher: None,
            compression_threshold: -1,
        }
    }

    /// Everything but the connection state is unchanged between the two
    /// connection values.
    pub open spec fn same_but_state(pre: &Conn, post: &Conn) -> bool {
        &&& post.host == pre.host
        &&& post.port == pre.port
        &&& post.direction == pre.direction
        &&& post.protocol_version == pre.protocol_version
        &&& post.compression_threshold == pre.compression_threshold
        &&& post.read_cipher == pre.read_cipher
        &&& post.write_cipher == pre.write_cipher
    }

    /// Moves the connection to a later state. States only advance along the
    /// legal paths: there is no way back within one connection.
    pub fn set_state(&mut self, state: State)
        requires
            spec_state_advances(old(self).state, state),
        ensures
            final(self).state == state,
            Conn::same_but_state(old(self), final(self)),
    {
        self.state = state;
    }

    /// Enables compression at the given threshold. Enabling is one-way:
    /// once a non-negative threshold is set, disabling mid-session is not
    /// supported.
    pub fn set_compression(&mut self, threshold: i32)
        requires
            !(old(self).compression_threshold >= 0 && threshold < 0),
        ensures
            final(self).compression_threshold == threshold,
            final(self).state == old(self).state,
            final(self).host == old(self).host,
            final(self).port == old(self).port,
            final(self).direction == old(self).direction,
            final(self).protocol_version == old(self).protocol_version,
            final(self).read_cipher == old(self).read_cipher,
            final(self).write_cipher == old(self).write_cipher,
    {
        self.compression_threshold = threshold;
    }

    /// Installs the stream cipher on both directions, once, with the same
    /// 16-byte key material but independent cipher state per direction.
    pub fn enable_encyption(&mut self, key: &Vec<u8>)
        requires
            key@.len() == 16,
            !old(self).read_encrypted(),
            !old(self).write_encrypted(),
        ensures
            final(self).read_encrypted(),
            final(self).write_encrypted(),
            final(self).read_key() == key@,
            final(self).write_key() == key@,
            final(self).read_processed() == Seq::<u8>::empty(),
            final(self).write_processed() == Seq::<u8>::empty(),
            final(self).host == old(self).host,
            final(self).port == old(self).port,
            final(self).direction == old(self).direction,
            final(self).protocol_version == old(self).protocol_version,
            final(self).state == old(self).state,
            final(self).compression_threshold == old(self).compression_threshold,
            final(self).ciphers_mode_ok(),
    {
        let rc = new_stream_cipher(key, Ghost(false));
        let wc = new_stream_cipher(key, Ghost(true));
        match (rc, wc) {
            (Some(r), Some(w)) => {
                self.read_cipher = Some(r);
                self.write_cipher = Some(w);
            },
            _ => {
                proof {
                    assert(false);
                }
            },
        }
    }

    /// Transforms outbound bytes through the write cipher when it is
    /// installed; a transparent transform that never changes sizes.
    pub fn encrypt_bytes(&mut self, data: &mut Vec<u8>)
        requires
            old(self).ciphers_mode_ok(),
        ensures
            final(self).ciphers_mode_ok(),
            final(self).host == old(self).host,
            final(self).port == old(self).port,
            final(self).direction == old(self).direction,
            final(self).protocol_version == old(self).protocol_version,
            final(self).state == old(self).state,
            final(self).compression_threshold == old(self).compression_threshold,
            final(self).read_cipher == old(self).read_cipher,
            final(self).write_encrypted() == old(self).write_encrypted(),
            !old(self).write_encrypted() ==> *final(data) == *old(data),
            old(self).write_encrypted() ==> {
                &&& final(self).write_key() == old(self).write_key()
                &&& final(self).write_processed() == old(self).write_processed() + old(data)@
                &&& final(data)@.len() == old(data)@.len()
                &&& final(data)@ == cfb8_enc(
                    old(self).write_key(),
                    old(self).write_processed() + old(data)@,
                ).skip(old(self).write_processed().len() as int)
                &&& cfb8_dec(
                    old(self).write_key(),
                    cfb8_enc(old(self).write_key(), old(self).write_processed() + old(data)@),
                ) == old(self).write_processed() + old(data)@
            },
    {
        match &mut self.write_cipher {
            Some(c) => {
                cipher_encrypt(c, data);
                proof {
                    assert(cfb8_enc(
                        old(self).write_key(),
                        old(self).write_processed() + old(data)@,
                    ).skip(old(self).write_processed().len() as int).len() == old(data)@.len());
                }
            },
            None => {},
        }
    }

    /// Transforms inbound bytes through the read cipher when it is
    /// installed; a transparent transform that never changes sizes.
    pub fn decrypt_bytes(&mut self, data: &mut Vec<u8>)
        requires
            old(self).ciphers_mode_ok(),
        ensures
            final(self).ciphers_mode_ok(),
            final(self).host == old(self).host,
            final(self).port == old(self).port,
            final(self).direction == old(self).direction,
            final(self).protocol_version == old(self).protocol_version,
            final(self).state == old(self).state,
            final(self).compression_threshold == old(self).compression_threshold,
            final(self).write_cipher == old(self).write_cipher,
            final(self).read_encrypted() == old(self).read_encrypted(),
            !old(self).read_encrypted() ==> *final(data) == *old(data),
            old(self).read_encrypted() ==> {
                &&& final(self).read_key() == old(self).read_key()
                &&& final(self).read_processed() == old(self).read_processed() + old(data)@
                &&& final(data)@.len() == old(data)@.len()
                &&& final(data)@ == cfb8_dec(
                    old(self).read_key(),
                    old(self).read_processed() + old(data)@,
                ).skip(old(self).read_processed().len() as int)
                &&& cfb8_enc(
                    old(self).read_key(),
                    cfb8_dec(old(self).read_key(), old(self).read_processed() + old(data)@),
                ) == old(self).read_processed() + old(data)@
            },
    {
        match &mut self.read_cipher {
            Some(c) => {
                cipher_decrypt(c, data);
                proof {
                    assert(cfb8_dec(
                        old(self).read_key(),
                        old(self).read_processed() + old(data)@,
                    ).skip(old(self).read_processed().len() as int).len() == old(data)@.len());
                }
            },
            None => {},
        }
    }
}


/// Whether a state change moves forward along the legal paths: handshaking
/// leads to status or login, and a successful login leads to play; a state
/// may restate itself, but never reverts.
pub open spec fn spec_state_advances(from: State, to: State) -> bool {
    ||| from == to
    ||| (from == State::Handshaking && (to == State::Status || to == State::Login))
    ||| (from == State::Login && to == State::Play)
}

/// The opposite direction: what the remote endpoint sends.
pub open spec fn spec_opposite(d: Direction) -> Direction {
    match d {
        Direction::Serverbound => Direction::Clientbound,
        Direction::Clientbound => Direction::Serverbound,
    }
}

/// The opposite direction: what the remote endpoint sends.
pub fn opposite(d: Direction) -> (r: Direction)
    ensures
        r == spec_opposite(d),
{
    match d {
        Direction::Serverbound => Direction::Clientbound,
        Direction::Clientbound => Direction::Serverbound,
    }
}

/// The outbound frame for a packet body: the body length-prefixed, with the
/// compression sub-frame when compression is on. A body over the threshold
/// is replaced by its compressed form prefixed with the uncompressed size;
/// a body at or under it keeps a zero-valued size prefix, so framing stays
/// uniform.
pub open spec fn spec_frame(threshold: i32, body: Seq<u8>) -> Seq<u8> {
    if threshold >= 0 && body.len() > threshold {
        let inner = varnum_enc(body.len()) + deflate_of(body);
        varnum_enc(inner.len()) + inner
    } else if threshold >= 0 {
        varnum_enc((body.len() + 1) as nat) + varnum_enc(0) + body
    } else {
        varnum_enc(body.len()) + body
    }
}

/// Whether framing is guaranteed to succeed for a body of this length: the
/// length prefixes must fit their 31-bit carriers even at the compressed
/// output's worst-case size, so the condition depends on the body's length
/// alone and every caller can discharge it.
pub open spec fn spec_frame_fits(threshold: i32, body: Seq<u8>) -> bool {
    if threshold >= 0 && body.len() > threshold {
        5 + body.len() + body.len() / 4 + 1024 <= 0x7fffffff
    } else if threshold >= 0 {
        body.len() + 1 <= 0x7fffffff
    } else {
        body.len() <= 0x7fffffff
    }
}

impl Conn {
    /// Builds the outbound frame for one packet: resolves the wire id,
    /// serializes the fields, applies the compression sub-frame per the
    /// session threshold and prepends the outer length. The caller sends the
    /// returned bytes (through [`Conn::encrypt_bytes`] when encryption is
    /// on) as one unit.
    pub fn write_packet(&self, packet: &Packet) -> (res: Result<Vec<u8>, Error>)
        ensures
            spec_framed_packet(self, packet.internal_id, models_of(packet.fields@), res),
    {
        let mut body: Vec<u8> = Vec::new();
        match encode_packet(packet, self.protocol_version, self.state, self.direction, &mut body) {
            Ok(()) => {},
            Err(e) => {
                return Err(e);
            },
        }
        let thr = self.compression_threshold;
        let mut frame: Vec<u8> = Vec::new();
        if thr >= 0 && body.len() > thr as usize {
            if body.len() > 0x7fffffff {
                return Err(Error::EncodingLimitExceeded);
            }
            let z = zlib_compress(&body);
            let mut inner: Vec<u8> = Vec::new();
            let blen = VarInt(body.len() as i32);
            blen.write_varint(&mut inner);
            inner.extend_from_slice(z.as_slice());
            proof {
                crate::varint::lemma_varnum_enc_len5(body@.len());
            }
            if inner.len() > 0x7fffffff {
                return Err(Error::EncodingLimitExceeded);
            }
            let ilen = VarInt(inner.len() as i32);
            ilen.write_varint(&mut frame);
            frame.extend_from_slice(inner.as_slice());
            proof {
                assert(frame@ =~= spec_frame(thr, body@));
            }
        } else if thr >= 0 {
            if body.len() >= 0x7fffffff {
                return Err(Error::EncodingLimitExceeded);
            }
            let flen = VarInt(body.len() as i32 + 1);
            flen.write_varint(&mut frame);
            frame.push(0);
            frame.extend_from_slice(body.as_slice());
            proof {
                assert(varnum_enc(0nat) =~= seq![0u8]);
                assert(frame@ =~= spec_frame(thr, body@));
            }
        } else {
            if body.len() > 0x7fffffff {
                return Err(Error::EncodingLimitExceeded);
            }
            let flen = VarInt(body.len() as i32);
            flen.write_varint(&mut frame);
            frame.extend_from_slice(body.as_slice());
            proof {
                assert(frame@ =~= spec_frame(thr, body@));
            }
        }
        Ok(frame)
    }
}

/// The packet id and field bytes of a deframed body: the id as a VarInt,
/// the rest as field bytes.
pub open spec fn spec_body_parsed(body: Seq<u8>, consumed: int) -> Result<(i32, Seq<u8>, int),
    Error,
> {
    match varint_decoded(body) {
        None => Err(
            if varnum_over_limit(body, 5) {
                Error::EncodingLimitExceeded
            } else {
                Error::FieldDecodeFailure
            },
        ),
        Some((id, k)) => Ok((id.0, body.skip(k), consumed)),
    }
}

/// What the inbound framing yields from the front of a byte stream: the
/// packet id, its field bytes and the bytes consumed from the stream; or the
/// categorized error. A frame length over [`MAX_FRAME_LEN`] is a corrupted
/// stream; a compressed body whose inflated length disagrees with its
/// declared uncompressed size is a malformed frame.
pub open spec fn spec_read_raw(s: Seq<u8>, compression_threshold: i32) -> Result<(
    i32,
    Seq<u8>,
    int,
), Error> {
    match varint_decoded(s) {
        None => Err(
            if varnum_over_limit(s, 5) {
                Error::EncodingLimitExceeded
            } else {
                Error::FieldDecodeFailure
            },
        ),
        Some((lv, k)) => {
            let len = lv.0;
            if len < 0 {
                Err(Error::MalformedFrame { packet_id: -1i32, leftover: 0usize })
            } else if len > MAX_FRAME_LEN {
                Err(Error::EncodingLimitExceeded)
            } else if s.len() < k + len {
                Err(Error::MalformedFrame { packet_id: -1i32, leftover: 0usize })
            } else {
                let frame = s.subrange(k, k + len);
                let consumed = k + len;
                if compression_threshold >= 0 {
                    match varint_decoded(frame) {
                        None => Err(
                            if varnum_over_limit(frame, 5) {
                                Error::EncodingLimitExceeded
                            } else {
                                Error::FieldDecodeFailure
                            },
                        ),
                        Some((uv, k2)) => {
                            if uv.0 == 0 {
                                spec_body_parsed(frame.skip(k2), consumed)
                            } else if uv.0 < 0 {
                                Err(Error::MalformedFrame { packet_id: -1i32, leftover: 0usize })
                            } else {
                                match inflate_of(frame.skip(k2)) {
                                    None => Err(
                                        Error::MalformedFrame { packet_id: -1i32, leftover: 0usize },
                                    ),
                                    Some(b) => if b.len() != uv.0 {
                                        Err(Error::MalformedFrame { packet_id: -1i32, leftover: 0usize })
                                    } else {
                                        spec_body_parsed(b, consumed)
                                    },
                                }
                            }
                        },
                    }
                } else {
                    spec_body_parsed(frame, consumed)
                }
            }
        },
    }
}

/// One branch of the framing round trip: no compression.
proof fn lemma_frame_round_trip_plain(threshold: i32, body: Seq<u8>, rest: Seq<u8>)
    requires
        threshold < 0,
        varint_decoded(body) is Some,
        body.len() <= MAX_FRAME_LEN,
    ensures
        ({
            let frame = spec_frame(threshold, body);
            let parsed = varint_decoded(body).unwrap();
            spec_read_raw(frame + rest, threshold) == Ok::<(i32, Seq<u8>, int), Error>(
                (parsed.0.0, body.skip(parsed.1), frame.len() as int),
            )
        }),
{
    let frame = spec_frame(threshold, body);
    let all = frame + rest;
    let n = body.len();
    crate::varint::lemma_varnum_enc_len5(n);
    crate::varint::lemma_varnum_round_trip(n, body + rest, 5);
    assert(all =~= varnum_enc(n) + (body + rest));
    let k0 = varnum_enc(n).len() as int;
    assert(varint_decoded(all) == Some((VarInt(n as i32), k0)));
    assert(all.subrange(k0, k0 + n as int) =~= body);
    assert(frame.len() == k0 + n as int);
}

/// One branch of the framing round trip: compression on, body at or under
/// the threshold, zero-valued size prefix.
proof fn lemma_frame_round_trip_zero(threshold: i32, body: Seq<u8>, rest: Seq<u8>)
    requires
        threshold >= 0,
        body.len() <= threshold,
        varint_decoded(body) is Some,
        body.len() + 1 <= MAX_FRAME_LEN,
    ensures
        ({
            let frame = spec_frame(threshold, body);
            let parsed = varint_decoded(body).unwrap();
            spec_read_raw(frame + rest, threshold) == Ok::<(i32, Seq<u8>, int), Error>(
                (parsed.0.0, body.skip(parsed.1), frame.len() as int),
            )
        }),
{
    let frame = spec_frame(threshold, body);
    let all = frame + rest;
    let inner = varnum_enc(0nat) + body;
    let ll = (body.len() + 1) as nat;
    assert(varnum_enc(0nat) =~= seq![0u8]);
    assert(inner.len() == ll);
    crate::varint::lemma_varnum_enc_len5(ll);
    crate::varint::lemma_varnum_round_trip(ll, inner + rest, 5);
    assert(all =~= varnum_enc(ll) + (inner + rest));
    let k0 = varnum_enc(ll).len() as int;
    assert(varint_decoded(all) == Some((VarInt(ll as i32), k0)));
    assert(all.subrange(k0, k0 + ll as int) =~= inner);
    assert(inner[0] == 0u8);
    assert(varint_decoded(inner) == Some((VarInt(0), 1int)));
    assert(inner.skip(1) =~= body);
    assert(frame.len() == k0 + ll as int);
}

/// One branch of the framing round trip: compression on, body over the
/// threshold, compressed sub-frame.
proof fn lemma_frame_round_trip_compressed(threshold: i32, body: Seq<u8>, rest: Seq<u8>)
    requires
        threshold >= 0,
        body.len() > threshold,
        varint_decoded(body) is Some,
        body.len() <= 0x7fffffff,
        inflate_of(deflate_of(body)) == Some(body),
        varnum_enc(body.len()).len() + deflate_of(body).len() <= MAX_FRAME_LEN,
    ensures
        ({
            let frame = spec_frame(threshold, body);
            let parsed = varint_decoded(body).unwrap();
            spec_read_raw(frame + rest, threshold) == Ok::<(i32, Seq<u8>, int), Error>(
                (parsed.0.0, body.skip(parsed.1), frame.len() as int),
            )
        }),
{
    let frame = spec_frame(threshold, body);
    let all = frame + rest;
    let n = body.len();
    let z = deflate_of(body);
    let inner = varnum_enc(n) + z;
    let ll = inner.len();
    crate::varint::lemma_varnum_enc_len5(ll);
    crate::varint::lemma_varnum_round_trip(ll, inner + rest, 5);
    assert(all =~= varnum_enc(ll) + (inner + rest));
    let k0 = varnum_enc(ll).len() as int;
    assert(varint_decoded(all) == Some((VarInt(ll as i32), k0)));
    assert(all.subrange(k0, k0 + ll as int) =~= inner);
    crate::varint::lemma_varnum_enc_len5(n);
    crate::varint::lemma_varnum_round_trip(n, z, 5);
    let k2 = varnum_enc(n).len() as int;
    assert(varint_decoded(inner) == Some((VarInt(n as i32), k2)));
    assert(n as i32 > 0);
    assert(inner.skip(k2) =~= z);
    assert(frame.len() == k0 + ll as int);
}

/// Framing round trip: deframing what [`Conn::write_packet`] framed gives
/// the packet id and field bytes back and consumes exactly the frame,
/// whatever bytes follow and whether or not the body was compressed. The
/// decompression hypotheses are exactly what `write_packet`'s contract
/// exports for a compressed frame.
pub proof fn lemma_frame_round_trip(threshold: i32, body: Seq<u8>, rest: Seq<u8>)
    requires
        varint_decoded(body) is Some,
        threshold >= 0 && body.len() > threshold ==> body.len() <= 0x7fffffff && inflate_of(
            deflate_of(body),
        ) == Some(body) && varnum_enc(body.len()).len() + deflate_of(body).len() <= MAX_FRAME_LEN,
        threshold >= 0 && !(body.len() > threshold) ==> body.len() + 1 <= MAX_FRAME_LEN,
        threshold < 0 ==> body.len() <= MAX_FRAME_LEN,
    ensures
        ({
            let frame = spec_frame(threshold, body);
            let parsed = varint_decoded(body).unwrap();
            spec_read_raw(frame + rest, threshold) == Ok::<(i32, Seq<u8>, int), Error>(
                (parsed.0.0, body.skip(parsed.1), frame.len() as int),
            )
        }),
{
    if threshold >= 0 && body.len() > threshold {
        lemma_frame_round_trip_compressed(threshold, body, rest);
    } else if threshold >= 0 {
        lemma_frame_round_trip_zero(threshold, body, rest);
    } else {
        lemma_frame_round_trip_plain(threshold, body, rest);
    }
}

/// Reads the packet id and field bytes from the front of a deframed body.
fn parse_body(br: &mut Reader, ghost_consumed: Ghost<int>) -> (res: Result<(i32, Vec<u8>), Error>)
    requires
        old(br).wf(),
    ensures
        match spec_body_parsed(old(br).remaining_bytes(), ghost_consumed@) {
            Ok((id, fb, c)) => res matches Ok(p) && p.0 == id && p.1@ == fb,
            Err(e) => res == Err::<(i32, Vec<u8>), Error>(e),
        },
{
    let id = match VarInt::read_varint(br) {
        Ok(v) => v,
        Err(e) => {
            return Err(e);
        },
    };
    let fields = br.read_to_end();
    Ok((id.0, fields))
}

/// Deframes one packet from the front of a reader: reads the outer length,
/// takes exactly that many bytes, undoes the compression sub-frame when
/// compression is on (rejecting a body whose inflated length disagrees with
/// its declared uncompressed size), and splits off the packet id.
pub fn read_raw_packet_from(r: &mut Reader, compression_threshold: i32) -> (res: Result<
    (i32, Vec<u8>),
    Error,
>)
    requires
        old(r).wf(),
    ensures
        final(r).wf(),
        final(r).data_seq() == old(r).data_seq(),
        final(r).position() >= old(r).position(),
        match spec_read_raw(old(r).remaining_bytes(), compression_threshold) {
            Ok((id, fb, c)) => res matches Ok(p) && p.0 == id && p.1@ == fb && final(r).position()
                == old(r).position() + c,
            Err(e) => res == Err::<(i32, Vec<u8>), Error>(e),
        },
{
    let lv = match VarInt::read_varint(r) {
        Ok(v) => v,
        Err(e) => {
            return Err(e);
        },
    };
    if lv.0 < 0 {
        return Err(Error::MalformedFrame { packet_id: -1i32, leftover: 0usize });
    }
    if lv.0 > MAX_FRAME_LEN {
        return Err(Error::EncodingLimitExceeded);
    }
    let n = lv.0 as usize;
    let ghost s0 = old(r).remaining_bytes();
    let ghost mid = r.remaining_bytes();
    let frame_bytes = match r.read_exact(n) {
        Some(b) => b,
        None => {
            return Err(Error::MalformedFrame { packet_id: -1i32, leftover: 0usize });
        },
    };
    proof {
        match varint_decoded(s0) {
            Some((l2, k)) => {
                assert(mid =~= s0.skip(k));
                assert(frame_bytes@ =~= s0.subrange(k, k + n as int));
            },
            None => {},
        }
    }
    let ghost consumed = r.position() - old(r).position();
    let mut fr = Reader::new(frame_bytes);
    if compression_threshold >= 0 {
        let ghost frame_seq = fr.remaining_bytes();
        let uv = match VarInt::read_varint(&mut fr) {
            Ok(v) => v,
            Err(e) => {
                return Err(e);
            },
        };
        proof {
            match varint_decoded(frame_seq) {
                Some((u2, k2)) => {
                    assert(fr.remaining_bytes() =~= frame_seq.skip(k2));
                },
                None => {},
            }
        }
        if uv.0 == 0 {
            parse_body(&mut fr, Ghost(consumed))
        } else if uv.0 < 0 {
            Err(Error::MalformedFrame { packet_id: -1i32, leftover: 0usize })
        } else {
            let rest = fr.read_to_end();
            match zlib_decompress(&rest) {
                None => Err(Error::MalformedFrame { packet_id: -1i32, leftover: 0usize }),
                Some(b) => {
                    if b.len() != uv.0 as usize {
                        Err(Error::MalformedFrame { packet_id: -1i32, leftover: 0usize })
                    } else {
                        let mut br = Reader::new(b);
                        parse_body(&mut br, Ghost(consumed))
                    }
                },
            }
        }
    } else {
        parse_body(&mut fr, Ghost(consumed))
    }
}

impl Conn {
    /// Reads one packet sent by the remote endpoint from deframed stream
    /// bytes: deframes, resolves the wire id against the session's state and
    /// version, decodes the fields, and demands that every body byte was
    /// consumed — leftover bytes are a malformed packet, reported with the
    /// id and the exact unconsumed count. An id the catalog does not know is
    /// an unknown-packet error.
    pub fn read_packet(&self, r: &mut Reader) -> (res: Result<Packet, Error>)
        requires
            old(r).wf(),
        ensures
            final(r).wf(),
            final(r).data_seq() == old(r).data_seq(),
            final(r).position() >= old(r).position(),
            match spec_read_raw(old(r).remaining_bytes(), self.compression_threshold) {
                Err(e) => res == Err::<Packet, Error>(e),
                Ok((id, fb, c)) => {
                    &&& final(r).position() == old(r).position() + c
                    &&& match spec_packet_decoded(
                        self.protocol_version,
                        self.state,
                        spec_opposite(self.direction),
                        id,
                        fb,
                    ) {
                        Err(()) => res matches Err(e) && e.is_decode_error(),
                        Ok(None) => res == Err::<Packet, Error>(
                            Error::UnknownPacket { wire_id: id },
                        ),
                        Ok(Some((iid, es, m))) => if m == fb.len() {
                            res matches Ok(p) && p.internal_id == iid && models_of(p.fields@) == es
                        } else {
                            res == Err::<Packet, Error>(
                                Error::MalformedFrame {
                                    packet_id: id,
                                    leftover: (fb.len() - m) as usize,
                                },
                            )
                        },
                    }
                },
            },
    {
        let (id, field_bytes) = match read_raw_packet_from(r, self.compression_threshold) {
            Ok(p) => p,
            Err(e) => {
                return Err(e);
            },
        };
        let dir = opposite(self.direction);
        let mut br = Reader::new(field_bytes);
        proof {
            match spec_read_raw(old(r).remaining_bytes(), self.compression_threshold) {
                Ok((id0, fb, c)) => {
                    crate::packet::lemma_packet_decoded_len(
                        self.protocol_version,
                        self.state,
                        spec_opposite(self.direction),
                        id0,
                        fb,
                    );
                },
                Err(_) => {},
            }
        }
        let opt = match decode_packet(self.protocol_version, self.state, dir, id, &mut br) {
            Ok(o) => o,
            Err(e) => {
                return Err(e);
            },
        };
        match opt {
            None => Err(Error::UnknownPacket { wire_id: id }),
            Some(p) => {
                let leftover = br.remaining_len();
                if leftover != 0 {
                    Err(Error::MalformedFrame { packet_id: id, leftover })
                } else {
                    Ok(p)
                }
            },
        }
    }
}


/// The plugin-message packet a session writes: the modern shape with a raw
/// payload from protocol 47 on, the legacy shape with a `VarShort`-prefixed
/// payload before it.
pub open spec fn spec_plugin_message_packet(
    protocol_version: i32,
    channel: Seq<char>,
    data: Seq<u8>,
) -> (i32, Seq<FieldModel>) {
    if protocol_version >= 47 {
        (
            crate::packet::PLUGIN_MESSAGE_SERVERBOUND,
            seq![FieldModel::Str(channel), FieldModel::Bytes(data)],
        )
    } else {
        (
            crate::packet::PLUGIN_MESSAGE_SERVERBOUND_I16,
            seq![FieldModel::Str(channel), FieldModel::ShortBytes(data)],
        )
    }
}

/// What framing a packet with the given internal id and field models under
/// this session yields: the frame bytes, or the categorized error, exactly
/// as [`Conn::write_packet`] produces them. Success is owed whenever the
/// body's length passes [`spec_frame_fits`]; whenever framing succeeds the
/// frame is exactly [`spec_frame`] of the body, and a compressed frame comes
/// with the decompression facts a reader needs to invert it.
pub open spec fn spec_framed_packet(
    conn: &Conn,
    internal_id: i32,
    models: Seq<FieldModel>,
    res: Result<Vec<u8>, Error>,
) -> bool {
    match spec_lookup_wire(
        spec_id_table(),
        conn.protocol_version,
        conn.state,
        conn.direction,
        internal_id,
        0,
    ) {
        None => res == Err::<Vec<u8>, Error>(Error::UnknownPacket { wire_id: internal_id }),
        Some(wire_id) => match spec_shape_fields(conn.state, conn.direction, internal_id) {
            None => res == Err::<Vec<u8>, Error>(Error::UnknownPacket { wire_id: internal_id }),
            Some(descs) => {
                let body = spec_packet_body(conn.protocol_version, wire_id, descs, models);
                &&& !fields_encodable(descs, models) ==> res is Err
                &&& fields_encodable(descs, models) ==> match res {
                    Ok(f) => f@ == spec_frame(conn.compression_threshold, body),
                    Err(e) => e == Error::EncodingLimitExceeded,
                }
                &&& fields_encodable(descs, models) && spec_frame_fits(
                    conn.compression_threshold,
                    body,
                ) ==> res is Ok
                &&& fields_encodable(descs, models) && conn.compression_threshold >= 0
                    && body.len() > conn.compression_threshold && res is Ok ==> inflate_of(
                    deflate_of(body),
                ) == Some(body) && deflate_of(body).len() <= body.len() + body.len() / 4 + 1024
            },
        },
    }
}

impl Conn {
    /// Builds the frame of a plugin message on the given channel: the modern
    /// packet shape from protocol 47 on, the legacy `VarShort`-prefixed one
    /// before it.
    pub fn write_plugin_message(&self, channel: &String, data: &Vec<u8>) -> (res: Result<
        Vec<u8>,
        Error,
    >)
        requires
            self.state == State::Play,
        ensures
            ({
                let (iid, models) = spec_plugin_message_packet(
                    self.protocol_version,
                    channel@,
                    data@,
                );
                spec_framed_packet(self, iid, models, res)
            }),
    {
        let packet = if self.protocol_version >= 47 {
            Packet {
                internal_id: crate::packet::PLUGIN_MESSAGE_SERVERBOUND,
                fields: vec![
                    FieldValue::Str(channel.clone()),
                    FieldValue::Bytes(data.clone()),
                ],
            }
        } else {
            Packet {
                internal_id: crate::packet::PLUGIN_MESSAGE_SERVERBOUND_I16,
                fields: vec![
                    FieldValue::Str(channel.clone()),
                    FieldValue::ShortBytes(data.clone()),
                ],
            }
        };
        proof {
            let (iid, models) = spec_plugin_message_packet(self.protocol_version, channel@, data@);
            assert(models_of(packet.fields@) =~= models);
        }
        self.write_packet(&packet)
    }

    /// Builds the frame of a login plugin response carrying the query's
    /// message id, the success flag and a raw payload.
    pub fn write_login_plugin_response(
        &self,
        message_id: VarInt,
        successful: bool,
        data: &Vec<u8>,
    ) -> (res: Result<Vec<u8>, Error>)
        requires
            self.state == State::Login,
        ensures
            spec_framed_packet(
                self,
                crate::packet::LOGIN_PLUGIN_RESPONSE,
                seq![
                    FieldModel::VInt(message_id),
                    FieldModel::Bool(successful),
                    FieldModel::Bytes(data@),
                ],
                res,
            ),
    {
        let packet = Packet {
            internal_id: crate::packet::LOGIN_PLUGIN_RESPONSE,
            fields: vec![
                FieldValue::VInt(message_id),
                FieldValue::Bool(successful),
                FieldValue::Bytes(data.clone()),
            ],
        };
        proof {
            assert(models_of(packet.fields@) =~= seq![
                FieldModel::VInt(message_id),
                FieldModel::Bool(successful),
                FieldModel::Bytes(data@),
            ]);
        }
        self.write_packet(&packet)
    }

    /// Builds the frame of a first-generation mod-loader handshake message:
    /// the already-encoded payload travels as a plugin message on the
    /// loader's legacy channel. The payload is opaque to this engine.
    pub fn write_fmlhs_plugin_message(&self, msg: &Vec<u8>) -> (res: Result<Vec<u8>, Error>)
        requires
            self.state == State::Play,
        ensures
            ({
                let (iid, models) = spec_plugin_message_packet(
                    self.protocol_version,
                    "FML|HS"@,
                    msg@,
                );
                spec_framed_packet(self, iid, models, res)
            }),
    {
        let channel: String = String::from_str("FML|HS");
        self.write_plugin_message(&channel, msg)
    }

    /// Builds the frame of a second-generation mod-loader handshake message:
    /// the already-encoded payload is wrapped as a nested length-prefixed
    /// blob on the loader's channel inside a successful login plugin
    /// response. The payload is opaque to this engine; only its framing is
    /// interpreted.
    pub fn write_fml2_handshake_plugin_message(
        &self,
        message_id: VarInt,
        msg: Option<&Vec<u8>>,
    ) -> (res: Result<Vec<u8>, Error>)
        requires
            self.state == State::Login,
            msg is Some,
        ensures
            match msg {
                Some(inner) => {
                    &&& inner@.len() <= 0x7fffffff ==> spec_framed_packet(
                        self,
                        crate::packet::LOGIN_PLUGIN_RESPONSE,
                        seq![
                            FieldModel::VInt(message_id),
                            FieldModel::Bool(true),
                            FieldModel::Bytes(spec_fml2_outer(inner@)),
                        ],
                        res,
                    )
                    &&& inner@.len() > 0x7fffffff ==> res == Err::<Vec<u8>, Error>(
                        Error::EncodingLimitExceeded,
                    )
                },
                None => true,
            },
    {
        let inner = match msg {
            Some(m) => m,
            None => {
                return Err(Error::EncodingLimitExceeded);
            },
        };
        if inner.len() > 0x7fffffff {
            return Err(Error::EncodingLimitExceeded);
        }
        let channel: String = String::from_str("fml:handshake");
        proof {
            reveal_strlit("fml:handshake");
            assert(vstd::utf8::is_ascii_chars(channel@));
            vstd::utf8::is_ascii_chars_encode_utf8(channel@);
        }
        let mut outer: Vec<u8> = Vec::new();
        match <String as crate::serialize::Serializable>::write_to(&channel, &mut outer) {
            Ok(()) => {},
            Err(e) => {
                return Err(e);
            },
        }
        let vlen = VarInt(inner.len() as i32);
        vlen.write_varint(&mut outer);
        outer.extend_from_slice(inner.as_slice());
        proof {
            assert(outer@ =~= spec_fml2_outer(inner@));
        }
        self.write_login_plugin_response(message_id, true, &outer)
    }
}

/// The nested payload of a second-generation mod-loader handshake: the
/// loader's channel name, the payload's length as a VarInt, then the payload.
pub open spec fn spec_fml2_outer(inner: Seq<u8>) -> Seq<u8> {
    crate::strings::string_encoding("fml:handshake"@) + varnum_enc(inner.len()) + inner
}

/// Parses one already-deframed clientbound play-state packet body, for
/// diagnosing packet-parsing issues: the decoded packet and the count of
/// body bytes the decode left unconsumed, or `None` for an id the catalog
/// does not know.
pub fn try_parse_packet(ibuf: Vec<u8>, protocol_version: i32) -> (res: Result<
    Option<(Packet, usize)>,
    Error,
>)
    ensures
        match spec_body_parsed(ibuf@, 0) {
            Err(e) => res == Err::<Option<(Packet, usize)>, Error>(e),
            Ok((id, fb, c)) => match spec_packet_decoded(
                protocol_version,
                State::Play,
                Direction::Clientbound,
                id,
                fb,
            ) {
                Err(()) => res matches Err(e) && e.is_decode_error(),
                Ok(None) => res == Ok::<Option<(Packet, usize)>, Error>(None),
                Ok(Some((iid, es, m))) => res matches Ok(Some((p, l))) && p.internal_id == iid
                    && models_of(p.fields@) == es && l == fb.len() - m,
            },
        },
{
    let mut br = Reader::new(ibuf);
    let (id, field_bytes) = match parse_body(&mut br, Ghost(0int)) {
        Ok(p) => p,
        Err(e) => {
            return Err(e);
        },
    };
    let mut fr = Reader::new(field_bytes);
    proof {
        match spec_body_parsed(ibuf@, 0) {
            Ok((id0, fb, c)) => {
                crate::packet::lemma_packet_decoded_len(
                    protocol_version,
                    State::Play,
                    Direction::Clientbound,
                    id0,
                    fb,
                );
            },
            Err(_) => {},
        }
    }
    let opt = match decode_packet(protocol_version, State::Play, Direction::Clientbound, id,
        &mut fr) {
        Ok(o) => o,
        Err(e) => {
            return Err(e);
        },
    };
    match opt {
        None => Ok(None),
        Some(p) => {
            let leftover = fr.remaining_len();
            Ok(Some((p, leftover)))
        },
    }
}

/// Whether the remaining characters continue a dotted-quad address literal:
/// `groups` complete groups so far, `digits` digits and `value` the numeric
/// value of the group being read.
pub open spec fn ipv4_ok(cs: Seq<char>, i: int, groups: int, digits: int, value: int) -> bool
    decreases cs.len() - i,
{
    if i < 0 || i > cs.len() {
        false
    } else if i == cs.len() {
        groups == 4 && digits >= 1
    } else {
        let c = cs[i];
        if c == '.' {
            digits >= 1 && groups < 4 && ipv4_ok(cs, i + 1, groups + 1, 0, 0)
        } else if '0' <= c <= '9' {
            digits < 3 && value * 10 + (c as int - 48) <= 255 && ipv4_ok(
                cs,
                i + 1,
                groups,
                digits + 1,
                value * 10 + (c as int - 48),
            )
        } else {
            false
        }
    }
}

/// Whether a string is a dotted-quad address literal: four dot-separated
/// groups of one to three decimal digits, each group at most 255.
pub open spec fn spec_is_ipv4_literal(cs: Seq<char>) -> bool {
    ipv4_ok(cs, 0, 1, 0, 0)
}

/// Whether a target string is a dotted-quad address literal, in which case
/// no name resolution is needed to connect to it.
pub fn is_ipv4_literal(s: &str) -> (r: bool)
    ensures
        r == spec_is_ipv4_literal(s@),
{
    let n = s.unicode_len();
    let mut i: usize = 0;
    let mut groups: u8 = 1;
    let mut digits: u8 = 0;
    let mut value: u16 = 0;
    while i < n
        invariant
            n == s@.len(),
            i <= n,
            1 <= groups <= 4,
            0 <= digits <= 3,
            0 <= value <= 255,
            spec_is_ipv4_literal(s@) == ipv4_ok(s@, i as int, groups as int, digits as int,
                value as int),
        decreases n - i,
    {
        let c = s.get_char(i);
        if c == '.' {
            if digits < 1 || groups >= 4 {
                return false;
            }
            groups = groups + 1;
            digits = 0;
            value = 0;
        } else if '0' <= c && c <= '9' {
            let d = (c as u32) - 48;
            if digits >= 3 {
                return false;
            }
            let next = value * 10 + (d as u16);
            if next > 255 {
                return false;
            }
            digits = digits + 1;
            value = next;
        } else {
            return false;
        }
        i = i + 1;
    }
    groups == 4 && digits >= 1
}

} // verus!
