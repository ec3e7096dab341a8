//! Frame codec: LDAP messages to and from a byte buffer, one BER element per
//! message.
//!
//! The BER work is rasn's. A message passes through here as rasn-ldap holds
//! it; this module decides what happens to the buffer.

use bytes::{Buf, BufMut};
use rasn::Decode;
use vstd::prelude::*;
use crate::error::Error;

verus! {

/// `bytes::BytesMut`, a growable byte buffer that is read from the front.
#[verifier::external_type_specification]
#[verifier::external_body]
pub struct ExBytesMut(bytes::BytesMut);

/// `rasn_ldap::LdapMessage`, a message as the BER codec takes and gives it.
#[verifier::external_type_specification]
#[verifier::external_body]
pub struct ExWireMessage(rasn_ldap::LdapMessage);

/// `rasn::error::DecodeError`
#[verifier::external_type_specification]
#[verifier::external_body]
pub struct ExDecodeError(rasn::error::DecodeError);

/// `rasn::error::EncodeError`
#[verifier::external_type_specification]
#[verifier::external_body]
pub struct ExEncodeError(rasn::error::EncodeError);

/// The bytes that a buffer holds, from its front to its end.
pub uninterp spec fn buffered(buf: bytes::BytesMut) -> Seq<u8>;

/// What a BER decoder makes of the front of a buffer.
pub enum Frame {
    /// A whole message, of this many bytes
    Complete(nat),
    /// The start of a message; more bytes are needed
    Incomplete,
    /// No message
    Malformed,
}

/// What rasn's BER decoder makes of `bytes`, read as one LDAP message.
pub uninterp spec fn ber_frame(bytes: Seq<u8>) -> Frame;

/// The message that rasn's BER decoder reads off the front of `bytes`, where
/// it reads one.
pub uninterp spec fn ber_message(bytes: Seq<u8>) -> rasn_ldap::LdapMessage;

/// The bytes that rasn's BER encoder gives for a message, or `None` where it
/// refuses the message.
pub uninterp spec fn ber_encoding(item: rasn_ldap::LdapMessage) -> Option<Seq<u8>>;

/// Outcome of one run of the BER decoder.
pub enum Decoded {
    /// A message, and the number of bytes it took
    Message(rasn_ldap::LdapMessage, usize),
    Incomplete,
    Malformed(rasn::error::DecodeError),
}

impl Decoded {
    /// The outcome without the message and the error.
    pub open spec fn frame(self) -> Frame {
        match self {
            Decoded::Message(_, n) => Frame::Complete(n as nat),
            Decoded::Incomplete => Frame::Incomplete,
            Decoded::Malformed(_) => Frame::Malformed,
        }
    }
}

/// Runs `rasn::ber::de::Decoder` over the buffer for one
/// `rasn_ldap::LdapMessage`, and reads `decoded_len` after a success.
///
/// Claims that the kind of outcome, the message and the length depend on
/// the bytes alone, and that the length, which the decoder computes as the
/// input's length less that of the input left, is no more than the input's
/// length. An error of kind `Incomplete` is told apart from every other.
#[verifier::external_body]
fn ber_decode(src: &bytes::BytesMut) -> (r: Decoded)
    ensures
        r.frame() == ber_frame(buffered(*src)),
        r matches Decoded::Message(m, n) ==> m == ber_message(buffered(*src)) && n <= buffered(
            *src,
        ).len(),
{
    let mut decoder = rasn::ber::de::Decoder::new(src, rasn::ber::de::DecoderOptions::ber());
    match rasn_ldap::LdapMessage::decode(&mut decoder) {
        Ok(msg) => Decoded::Message(msg, decoder.decoded_len()),
        Err(e) => match *e.kind {
            rasn::error::DecodeErrorKind::Incomplete { .. } => Decoded::Incomplete,
            _ => Decoded::Malformed(e),
        },
    }
}

/// `rasn::ber::encode` on a message. Claims that the bytes, or the refusal,
/// depend on the message alone.
#[verifier::external_body]
fn ber_encode(item: &rasn_ldap::LdapMessage) -> (r: Result<Vec<u8>, rasn::error::EncodeError>)
    ensures
        match r {
            Ok(bytes) => ber_encoding(*item) == Some(bytes@),
            Err(_) => ber_encoding(*item) is None,
        },
{
    rasn::ber::encode(item)
}

/// `Buf::has_remaining` of `BytesMut`: whether the buffer holds a byte.
#[verifier::external_body]
fn buf_has_remaining(buf: &bytes::BytesMut) -> (r: bool)
    ensures
        r == (buffered(*buf).len() > 0),
{
    buf.has_remaining()
}

/// `Buf::advance` of `BytesMut`: drops the first `n` bytes. It panics where
/// the buffer holds fewer.
#[verifier::external_body]
fn buf_advance(buf: &mut bytes::BytesMut, n: usize)
    requires
        n <= buffered(*old(buf)).len(),
    ensures
        buffered(*final(buf)) == buffered(*old(buf)).skip(n as int),
{
    buf.advance(n)
}

/// `BytesMut::len`: the number of bytes held.
#[verifier::external_body]
fn buf_len(buf: &bytes::BytesMut) -> (n: usize)
    ensures
        n == buffered(*buf).len(),
{
    buf.len()
}

/// `BytesMut::reserve`: makes room; the bytes held stay. It panics where
/// the new capacity overflows `usize`.
#[verifier::external_body]
fn buf_reserve(buf: &mut bytes::BytesMut, additional: usize)
    requires
        buffered(*old(buf)).len() + additional <= usize::MAX,
    ensures
        buffered(*final(buf)) == buffered(*old(buf)),
{
    buf.reserve(additional)
}

/// `BufMut::put_slice` of `BytesMut`: appends the bytes of `data`, growing
/// the buffer where it must, which panics where the new capacity overflows
/// `usize`.
#[verifier::external_body]
fn buf_put_slice(buf: &mut bytes::BytesMut, data: &[u8])
    requires
        buffered(*old(buf)).len() + data@.len() <= usize::MAX,
    ensures
        buffered(*final(buf)) == buffered(*old(buf)) + data@,
{
    buf.put_slice(data)
}

/// The debug rendering of a decoder error.
#[verifier::external_body]
fn describe_decode_error(e: &rasn::error::DecodeError) -> (text: String) {
    format!("{e:?}")
}

/// The debug rendering of an encoder error.
#[verifier::external_body]
fn describe_encode_error(e: &rasn::error::EncodeError) -> (text: String) {
    format!("{e:?}")
}

/// The text of the error for a message that would make the buffer longer
/// than the machine can address.
pub const TOO_LONG: &'static str = "message too long for the buffer";

/// The codec between a byte stream and LDAP messages.
pub struct LdapCodec;

impl LdapCodec {
    /// Acts on the buffer as the decoder's outcome asks.
    ///
    /// A message is handed on and its bytes leave the front of the buffer.
    /// An incomplete message leaves the buffer as it is, for more bytes to
    /// come. A malformed one is an error, and the buffer stays.
    pub fn decode_frame(&mut self, src: &mut bytes::BytesMut, decoded: Decoded) -> (r: Result<
        Option<rasn_ldap::LdapMessage>,
        Error,
    >)
        requires
            decoded matches Decoded::Message(_, n) ==> n <= buffered(*old(src)).len(),
        ensures
            match decoded {
                Decoded::Message(m, n) => r == Ok::<Option<rasn_ldap::LdapMessage>, Error>(Some(m))
                    && buffered(*final(src)) == buffered(*old(src)).skip(n as int),
                Decoded::Incomplete => r == Ok::<Option<rasn_ldap::LdapMessage>, Error>(None)
                    && buffered(*final(src)) == buffered(*old(src)),
                Decoded::Malformed(_) => r matches Err(Error::AsnDecode(_)) && buffered(*final(src))
                    == buffered(*old(src)),
            },
    {
        match decoded {
            Decoded::Message(msg, n) => {
                buf_advance(src, n);
                Ok(Some(msg))
            },
            Decoded::Incomplete => Ok(None),
            Decoded::Malformed(e) => Err(Error::AsnDecode(describe_decode_error(&e))),
        }
    }

    /// Takes one message off the front of the buffer, if a whole one is
    /// there.
    ///
    /// An empty buffer gives `None`. Otherwise the BER decoder reads the
    /// buffer: a whole message is returned and its bytes leave the buffer; the
    /// start of a message gives `None` and the buffer stays for more bytes to
    /// be appended; anything else is `AsnDecode`, and the stream is corrupt.
    pub fn decode(&mut self, src: &mut bytes::BytesMut) -> (r: Result<
        Option<rasn_ldap::LdapMessage>,
        Error,
    >)
        ensures
            buffered(*old(src)).len() == 0 ==> (r == Ok::<Option<rasn_ldap::LdapMessage>, Error>(
                None,
            )) && buffered(*final(src)) == buffered(*old(src)),
            buffered(*old(src)).len() > 0 ==> match ber_frame(buffered(*old(src))) {
                Frame::Complete(n) => r == Ok::<Option<rasn_ldap::LdapMessage>, Error>(
                    Some(ber_message(buffered(*old(src)))),
                ) && n <= buffered(*old(src)).len() && buffered(*final(src)) == buffered(
                    *old(src),
                ).skip(n as int),
                Frame::Incomplete => r == Ok::<Option<rasn_ldap::LdapMessage>, Error>(None)
                    && buffered(*final(src)) == buffered(*old(src)),
                Frame::Malformed => r matches Err(Error::AsnDecode(_)) && buffered(*final(src))
                    == buffered(*old(src)),
            },
    {
        if !buf_has_remaining(src) {
            return Ok(None);
        }
        let decoded = ber_decode(src);
        self.decode_frame(src, decoded)
    }

    /// Appends an encoded message to the buffer, or reports why there is
    /// none. A message that would make the buffer longer than the machine
    /// can address is not appended.
    pub fn encode_frame(
        &mut self,
        encoded: Result<Vec<u8>, rasn::error::EncodeError>,
        dst: &mut bytes::BytesMut,
    ) -> (r: Result<(), Error>)
        ensures
            match encoded {
                Ok(bytes) => if buffered(*old(dst)).len() + bytes@.len() <= usize::MAX {
                    r == Ok::<(), Error>(()) && buffered(*final(dst)) == buffered(*old(dst))
                        + bytes@
                } else {
                    (r matches Err(Error::AsnEncode(text)) && text@ == TOO_LONG@) && buffered(
                        *final(dst),
                    ) == buffered(*old(dst))
                },
                Err(_) => r matches Err(Error::AsnEncode(_)) && buffered(*final(dst)) == buffered(
                    *old(dst),
                ),
            },
    {
        match encoded {
            Ok(bytes) => {
                if bytes.len() > usize::MAX - buf_len(dst) {
                    return Err(Error::AsnEncode(TOO_LONG.to_owned()));
                }
                buf_reserve(dst, bytes.len());
                buf_put_slice(dst, bytes.as_slice());
                Ok(())
            },
            Err(e) => Err(Error::AsnEncode(describe_encode_error(&e))),
        }
    }

    /// Encodes a message in BER and appends the bytes to the buffer.
    ///
    /// The bytes that the encoder gives for the message go behind those
    /// already in the buffer. Where the encoder refuses the message, or the
    /// buffer would grow longer than the machine can address, nothing is
    /// appended and the error is `AsnEncode`.
    pub fn encode(&mut self, item: rasn_ldap::LdapMessage, dst: &mut bytes::BytesMut) -> (r: Result<
        (),
        Error,
    >)
        ensures
            match ber_encoding(item) {
                Some(bytes) => if buffered(*old(dst)).len() + bytes.len() <= usize::MAX {
                    r == Ok::<(), Error>(()) && buffered(*final(dst)) == buffered(*old(dst))
                        + bytes
                } else {
                    (r matches Err(Error::AsnEncode(text)) && text@ == TOO_LONG@) && buffered(
                        *final(dst),
                    ) == buffered(*old(dst))
                },
                None => r matches Err(Error::AsnEncode(_)) && buffered(*final(dst)) == buffered(
                    *old(dst),
                ),
            },
    {
        let encoded = ber_encode(&item);
        self.encode_frame(encoded, dst)
    }
}

} // verus!
