//! The exchange-buffer convention of the isolation boundary: how one call's
//! input arrives and how its answer goes back.
//!
//! Input: an empty buffer means "no document" — the drained stream — and
//! anything else must be one whole binary record ([`crate::codec`]).  A
//! buffer that is neither is corrupt, and the call cannot proceed.
//!
//! Output: a small envelope `{ terminal, document }`, itself rendered as a
//! length-prefixed buffer: a four-byte total length (counting itself), one
//! byte for the terminal flag, one byte telling whether a document
//! follows, then the document's record if one does.  Ownership of the
//! returned buffer passes to the caller; the guest keeps no reference.

use vstd::prelude::*;

use crate::codec::{
    dec_record, decode_record, enc_doc, enc_record, encode_record, le_u32, lemma_dec_enc_record,
    u32_le, wf64_fields,
};
use crate::document::Document;
use crate::stage::{input_model, DocModel};

verus! {

broadcast use {vstd::seq::group_seq_axioms, vstd::std_specs::vec::group_vec_axioms};

/// Why a call across the boundary could not proceed.
#[derive(Clone, Copy, Debug, PartialEq, Eq)]
pub enum TransportError {
    /// The input buffer is neither empty nor one whole record.
    Corrupt,
    /// The output document's record does not fit the length prefix.
    Oversize,
}

/// One call's input, parsed: a document, or none when the upstream is
/// drained.
#[derive(Debug, PartialEq, Eq)]
pub struct InputDocument {
    /// The document carried by the call, if any.
    pub doc: Option<Document>,
}

/// One call's answer before encoding: whether the stream is finished, and
/// the document handed back, if any.
#[derive(Debug, PartialEq, Eq)]
pub struct ReturnDocument {
    /// True when the stage will produce nothing more.
    pub is_eof: bool,
    /// The document this call yields, if any.
    pub next_doc: Option<Document>,
}

/// What an input buffer means: `Some(None)` for the drained stream,
/// `Some(Some(fields))` for one well-formed record, `None` for a corrupt
/// buffer.
pub open spec fn input_parse(s: Seq<u8>) -> Option<Option<DocModel>> {
    if s.len() == 0 {
        Some(None)
    } else {
        match dec_record(s) {
            Some(fs) => Some(Some(fs)),
            None => None,
        }
    }
}

/// The envelope's bytes: total length, terminal flag, document flag, and
/// the document's record if one is present.
pub open spec fn enc_envelope(terminal: bool, d: Option<DocModel>) -> Seq<u8> {
    let body = seq![if terminal { 1u8 } else { 0u8 }, if d is Some { 1u8 } else { 0u8 }]
        + match d {
        Some(fs) => enc_record(fs),
        None => Seq::empty(),
    };
    u32_le((4 + body.len()) as u32) + body
}

/// Whether the envelope for this optional document fits its length
/// prefixes.
pub open spec fn envelope_fits(d: Option<DocModel>) -> bool {
    match d {
        None => true,
        Some(fs) => 10 + enc_doc(fs).len() <= u32::MAX,
    }
}

/// What an output buffer means, read back: the terminal flag and the
/// optional document model, or `None` for a corrupt buffer.
pub open spec fn dec_envelope(s: Seq<u8>) -> Option<(bool, Option<DocModel>)> {
    if s.len() < 6 {
        None
    } else if le_u32(s[0], s[1], s[2], s[3]) as int != s.len() {
        None
    } else if s[4] != 0 && s[4] != 1 {
        None
    } else if s[5] == 0 {
        if s.len() == 6 {
            Some((s[4] == 1, None))
        } else {
            None
        }
    } else if s[5] == 1 {
        match dec_record(s.skip(6)) {
            Some(fs) => Some((s[4] == 1, Some(fs))),
            None => None,
        }
    } else {
        None
    }
}

/// Reading back an encoded envelope yields the flag and document exactly.
#[verifier::rlimit(100)]
pub proof fn lemma_dec_enc_envelope(terminal: bool, d: Option<DocModel>)
    requires
        envelope_fits(d),
        d matches Some(fs) ==> wf64_fields(fs),
    ensures
        dec_envelope(enc_envelope(terminal, d)) == Some((terminal, d)),
{
    let b = enc_envelope(terminal, d);
    let body = seq![if terminal { 1u8 } else { 0u8 }, if d is Some { 1u8 } else { 0u8 }]
        + match d {
        Some(fs) => enc_record(fs),
        None => Seq::<u8>::empty(),
    };
    let total = (4 + body.len()) as u32;
    assert(b =~= u32_le(total) + body);
    assert(b[0] == u32_le(total)[0]);
    assert(b[1] == u32_le(total)[1]);
    assert(b[2] == u32_le(total)[2]);
    assert(b[3] == u32_le(total)[3]);
    crate::codec::lemma_u32_le_roundtrip(total);
    assert(b[4] == body[0]);
    assert(b[5] == body[1]);
    match d {
        None => {
            assert(b.len() == 6);
        },
        Some(fs) => {
            assert(b.skip(6) =~= enc_record(fs));
            lemma_dec_enc_record(fs);
        },
    }
}

/// Parses one call's input buffer.
///
/// An empty buffer univocally means "no document"; anything else must be
/// one whole record.  Fails exactly on a corrupt buffer, and then the
/// call must be aborted.
pub fn get_input_doc(buf: &Vec<u8>) -> (r: Result<InputDocument, TransportError>)
    ensures
        match r {
            Ok(inp) => input_parse(buf@) == Some(input_model(inp.doc)),
            Err(e) => input_parse(buf@) is None && e == TransportError::Corrupt,
        },
{
    if buf.len() == 0 {
        return Ok(InputDocument { doc: None });
    }
    match decode_record(buf) {
        Some(d) => Ok(InputDocument { doc: Some(d) }),
        None => Err(TransportError::Corrupt),
    }
}

/// Encodes one call's answer as an envelope buffer whose ownership passes
/// to the caller.
///
/// Fails exactly when the document's record is too long for the four-byte
/// length prefix.
pub fn encode_return_doc(rd: ReturnDocument) -> (r: Result<Vec<u8>, TransportError>)
    ensures
        match r {
            Ok(b) => {
                &&& envelope_fits(input_model(rd.next_doc))
                &&& b@ == enc_envelope(rd.is_eof, input_model(rd.next_doc))
                &&& (rd.next_doc matches Some(d) ==> wf64_fields(d@))
            },
            Err(e) => !envelope_fits(input_model(rd.next_doc)) && e
                == TransportError::Oversize,
        },
{
    let mut body: Vec<u8> = Vec::new();
    body.push(if rd.is_eof {
        1
    } else {
        0
    });
    match rd.next_doc {
        None => {
            body.push(0);
            let total: u32 = 6;
            let mut out: Vec<u8> = Vec::new();
            crate::codec::push_u32_le(&mut out, total);
            out.append(&mut body);
            proof {
                assert(out@ =~= enc_envelope(rd.is_eof, input_model(rd.next_doc)));
            }
            Ok(out)
        },
        Some(d) => {
            body.push(1);
            match encode_record(&d) {
                Some(mut rec) => {
                    if rec.len() as u64 > (u32::MAX - 6) as u64 {
                        return Err(TransportError::Oversize);
                    }
                    let total = (rec.len() as u64 + 6) as u32;
                    let mut out: Vec<u8> = Vec::new();
                    crate::codec::push_u32_le(&mut out, total);
                    out.append(&mut body);
                    out.append(&mut rec);
                    proof {
                        assert(out@ =~= enc_envelope(rd.is_eof, input_model(rd.next_doc)));
                    }
                    Ok(out)
                },
                None => Err(TransportError::Oversize),
            }
        },
    }
}

/// Reads an envelope buffer back into a call answer: the inverse of
/// [`encode_return_doc`], for the host's side of the exchange.
pub fn decode_return_doc(buf: &Vec<u8>) -> (r: Result<ReturnDocument, TransportError>)
    ensures
        match r {
            Ok(rd) => dec_envelope(buf@) == Some((rd.is_eof, input_model(rd.next_doc))),
            Err(e) => dec_envelope(buf@) is None && e == TransportError::Corrupt,
        },
{
    proof {
        vstd::std_specs::vec::axiom_spec_len(buf);
    }
    if buf.len() < 6 {
        return Err(TransportError::Corrupt);
    }
    let total = crate::codec::read_u32_at(buf, 0);
    if total as u64 != buf.len() as u64 {
        return Err(TransportError::Corrupt);
    }
    let terminal_byte = buf[4];
    if terminal_byte != 0 && terminal_byte != 1 {
        return Err(TransportError::Corrupt);
    }
    let has_doc = buf[5];
    if has_doc == 0 {
        if buf.len() == 6 {
            Ok(ReturnDocument { is_eof: terminal_byte == 1, next_doc: None })
        } else {
            Err(TransportError::Corrupt)
        }
    } else if has_doc == 1 {
        let mut rec: Vec<u8> = Vec::new();
        let mut i: usize = 6;
        proof {
            assert(rec@ =~= buf@.subrange(6, 6));
        }
        while i < buf.len()
            invariant
                6 <= i <= buf@.len(),
                rec@ == buf@.subrange(6, i as int),
            decreases buf@.len() - i,
        {
            proof {
                vstd::std_specs::vec::axiom_spec_len(buf);
            }
            rec.push(buf[i]);
            proof {
                assert(rec@ =~= buf@.subrange(6, i + 1));
            }
            i = i + 1;
        }
        proof {
            assert(rec@ =~= buf@.skip(6));
        }
        match decode_record(&rec) {
            Some(d) => Ok(ReturnDocument { is_eof: terminal_byte == 1, next_doc: Some(d) }),
            None => Err(TransportError::Corrupt),
        }
    } else {
        Err(TransportError::Corrupt)
    }
}

} // verus!
