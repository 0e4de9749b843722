//! Byte-level framing and the reply envelope.
//!
//! Every message on the wire ends with a single sentinel byte (ASCII
//! ETX); there is no length prefix.  Requests carry the request
//! envelope; replies carry the reply envelope, which is located and
//! stripped without parsing what sits between the markers.

use vstd::prelude::*;
use vstd::slice::slice_to_vec;
use vstd::string::*;
use vstd::utf8::{decode_utf8, encode_utf8, valid_utf8};

use crate::error::Error;
use crate::parse::find_from;

verus! {

pub const DEFAULT_PORT: u16 = 31416;

/// The sentinel byte that ends every message on the wire.
pub const EOM: u8 = 3;

pub open spec fn request_opening() -> Seq<char> {
    "<boinc_gui_rpc_request>\n"@
}

pub open spec fn request_closing() -> Seq<char> {
    "\n</boinc_gui_rpc_request>"@
}

pub open spec fn reply_opening() -> Seq<char> {
    "<boinc_gui_rpc_reply>"@
}

pub open spec fn reply_closing() -> Seq<char> {
    "</boinc_gui_rpc_reply>"@
}

/// Wraps an encoded command in the request envelope and seals it with
/// the sentinel byte: the exact bytes a caller writes to the socket.
pub fn frame_request(payload: &str) -> (r: Vec<u8>)
    ensures
        r@ == encode_utf8(request_opening() + payload@ + request_closing()) + seq![EOM],
{
    let mut text = String::from_str("<boinc_gui_rpc_request>\n");
    text.append(payload);
    text.append("\n</boinc_gui_rpc_request>");
    let mut bytes = text.as_str().as_bytes_vec();
    bytes.push(EOM);
    proof {
        assert(bytes@ =~= encode_utf8(request_opening() + payload@ + request_closing()) + seq![
            EOM,
        ]);
    }
    bytes
}

/// What stripping the reply envelope yields: the text strictly between
/// the first occurrence of the opening marker and the last occurrence of
/// the closing marker.
pub open spec fn unwrap_reply_spec(s: Seq<char>) -> Option<Seq<char>> {
    match crate::parse::find_sub(s, reply_opening()) {
        Some(o) => match rfind_sub(s, reply_closing()) {
            Some(c) => if o + reply_opening().len() <= c {
                Some(s.subrange(o + reply_opening().len() as int, c))
            } else {
                None
            },
            None => None,
        },
        None => None,
    }
}

/// The last position where `p` occurs in `s`.
pub open spec fn rfind_sub(s: Seq<char>, p: Seq<char>) -> Option<int>
    decreases s.len(),
{
    if s.len() == 0 || s.len() < p.len() {
        None
    } else if crate::parse::starts(s.subrange(s.len() - p.len(), s.len() as int), p) {
        Some(s.len() - p.len())
    } else {
        rfind_sub(s.drop_last(), p)
    }
}

/// Finds the last occurrence of `p` in `s`.
fn rfind_str(s: &str, p: &str) -> (r: Option<usize>)
    requires
        p@.len() > 0,
    ensures
        match r {
            Some(j) => j + p@.len() <= s@.len() && rfind_sub(s@, p@) == Some(j as int),
            None => rfind_sub(s@, p@) is None,
        },
{
    let len = s.unicode_len();
    let plen = p.unicode_len();
    if len < plen {
        return None;
    }
    let mut j = len - plen;
    proof {
        assert(s@.subrange(0, len as int) =~= s@);
    }
    loop
        invariant
            j + plen <= len,
            len == s@.len(),
            plen == p@.len(),
            plen > 0,
            rfind_sub(s@, p@) == rfind_sub(s@.subrange(0, (j + plen) as int), p@),
        decreases j,
    {
        let ghost pref = s@.subrange(0, (j + plen) as int);
        let ghost slice = s@.subrange(j as int, (j + plen) as int);
        proof {
            assert(pref.len() == j + plen);
            assert(pref.subrange(pref.len() - p@.len(), pref.len() as int) =~= slice);
            assert(slice.subrange(0, p@.len() as int) =~= slice);
            assert(crate::parse::sfx(s@, j as int).subrange(0, p@.len() as int) =~= slice);
            assert(crate::parse::sfx(s@, j as int).len() >= p@.len());
        }
        if crate::parse::starts_at(s, j, p) {
            proof {
                assert(slice == p@);
                assert(crate::parse::starts(pref.subrange(pref.len() - p@.len(), pref.len() as int), p@));
                assert(rfind_sub(pref, p@) == Some(j as int));
            }
            return Some(j);
        }
        proof {
            assert(slice != p@);
            assert(!crate::parse::starts(pref.subrange(pref.len() - p@.len(), pref.len() as int), p@));
            assert(pref.drop_last() =~= s@.subrange(0, (j + plen - 1) as int));
            assert(rfind_sub(pref, p@) == rfind_sub(s@.subrange(0, (j + plen - 1) as int), p@));
        }
        if j == 0 {
            proof {
                let last = s@.subrange(0, (plen - 1) as int);
                assert(last.len() < p@.len());
                assert(rfind_sub(last, p@) is None);
            }
            return None;
        }
        j -= 1;
    }
}

/// Strips the reply envelope from a raw reply: the text strictly between
/// the first opening marker and the last closing marker.  A reply that
/// is not UTF-8 is an encoding error; missing or crossed markers are a
/// protocol error.
pub fn unwrap_reply(reply: &[u8]) -> (r: Result<String, Error>)
    ensures
        match r {
            Ok(p) => valid_utf8(reply@) && unwrap_reply_spec(decode_utf8(reply@)) == Some(p@),
            Err(e) => match e {
                Error::UnsupportedEncoding => !valid_utf8(reply@),
                Error::Rpc(_) => valid_utf8(reply@) && unwrap_reply_spec(decode_utf8(reply@))
                    is None,
                _ => false,
            },
        },
{
    let text = match crate::parse::bytes_to_string(reply) {
        Some(t) => t,
        None => {
            return Err(Error::UnsupportedEncoding);
        },
    };
    let s = text.as_str();
    proof {
        assert(crate::parse::sfx(s@, 0) =~= s@);
        reveal_strlit("<boinc_gui_rpc_reply>");
        reveal_strlit("</boinc_gui_rpc_reply>");
    }
    let opening = match find_from(s, 0, "<boinc_gui_rpc_reply>") {
        Some(o) => o,
        None => {
            return Err(Error::Rpc(String::from_str("The reply carries no opening marker.")));
        },
    };
    let closing = match rfind_str(s, "</boinc_gui_rpc_reply>") {
        Some(c) => c,
        None => {
            return Err(Error::Rpc(String::from_str("The reply carries no closing marker.")));
        },
    };
    let olen = "<boinc_gui_rpc_reply>".unicode_len();
    if closing < olen || opening > closing - olen {
        return Err(
            Error::Rpc(String::from_str("The reply's envelope markers cross each other.")),
        );
    }
    Ok(String::from_str(s.substring_char(opening + olen, closing)))
}

/// Stripping the envelope undoes wrapping a payload in it, for every
/// payload.
pub proof fn lemma_unwrap_wrap_reply(p: Seq<char>)
    ensures
        unwrap_reply_spec(reply_opening() + p + reply_closing()) == Some(p),
{
    let s = reply_opening() + p + reply_closing();
    let olen = reply_opening().len() as int;
    let clen = reply_closing().len() as int;
    assert(s.len() == olen + p.len() + clen);
    reveal_strlit("<boinc_gui_rpc_reply>");
    reveal_strlit("</boinc_gui_rpc_reply>");
    assert(olen > 0 && clen > 0);
    assert(s.subrange(0, olen) =~= reply_opening());
    assert(crate::parse::starts(s, reply_opening()));
    assert(crate::parse::find_sub(s, reply_opening()) == Some(0int));
    let tailp = s.subrange(s.len() - clen, s.len() as int);
    assert(tailp =~= reply_closing());
    assert(tailp.subrange(0, clen) =~= tailp);
    assert(crate::parse::starts(tailp, reply_closing()));
    assert(rfind_sub(s, reply_closing()) == Some(s.len() - clen));
    assert(s.subrange(olen, s.len() - clen) =~= p);
}

/// Reassembles a sentinel-framed reply from the chunks the socket hands
/// back: chunks accumulate until one ends with the sentinel, which is
/// excluded from the payload.
pub struct ReplyAccumulator {
    buf: Vec<u8>,
    done: bool,
}

impl ReplyAccumulator {
    /// The payload gathered so far.
    pub closed spec fn bytes(&self) -> Seq<u8> {
        self.buf@
    }

    /// Whether the sentinel has been seen.
    pub closed spec fn is_done(&self) -> bool {
        self.done
    }

    pub fn new() -> (r: ReplyAccumulator)
        ensures
            r.bytes() == Seq::<u8>::empty(),
            !r.is_done(),
    {
        ReplyAccumulator { buf: Vec::new(), done: false }
    }

    pub fn done(&self) -> (r: bool)
        ensures
            r == self.is_done(),
    {
        self.done
    }

    /// Takes in one non-empty read.  If its last byte is the sentinel,
    /// the rest of the chunk completes the payload; otherwise the whole
    /// chunk is appended and more reads are needed.
    pub fn push_chunk(&mut self, chunk: &[u8])
        requires
            chunk@.len() > 0,
            !old(self).is_done(),
        ensures
            final(self).is_done() == (chunk@.last() == EOM),
            final(self).bytes() == if chunk@.last() == EOM {
                old(self).bytes() + chunk@.drop_last()
            } else {
                old(self).bytes() + chunk@
            },
    {
        let mut piece = slice_to_vec(chunk);
        if piece[piece.len() - 1] == EOM {
            piece.pop();
            self.done = true;
            proof {
                assert(piece@ =~= chunk@.drop_last());
            }
        }
        self.buf.append(&mut piece);
    }

    /// Takes in the outcome of one socket read.  A read that returned no
    /// bytes before the sentinel was seen means the daemon closed the
    /// connection mid-reply: a transport error.  Otherwise the chunk is
    /// accumulated and the result says whether the reply is complete.
    pub fn on_read(&mut self, chunk: &[u8]) -> (r: Result<bool, Error>)
        requires
            !old(self).is_done(),
        ensures
            match r {
                Ok(done) => {
                    &&& chunk@.len() > 0
                    &&& done == final(self).is_done()
                    &&& done == (chunk@.last() == EOM)
                    &&& final(self).bytes() == if chunk@.last() == EOM {
                        old(self).bytes() + chunk@.drop_last()
                    } else {
                        old(self).bytes() + chunk@
                    }
                },
                Err(e) => chunk@.len() == 0 && e is Io && final(self).bytes() == old(self).bytes()
                    && !final(self).is_done(),
            },
    {
        if chunk.len() == 0 {
            return Err(Error::Io(String::from_str("Unexpected end of stream inside a reply.")));
        }
        self.push_chunk(chunk);
        Ok(self.done())
    }

    /// Hands the reassembled payload out.
    pub fn into_bytes(self) -> (r: Vec<u8>)
        ensures
            r@ == self.bytes(),
    {
        self.buf
    }
}

} // verus!

verus! {

proof fn lemma_encode_scalar_no_sentinel(v: u32)
    requires
        v != 3,
    ensures
        forall|i: int|
            0 <= i < vstd::utf8::encode_scalar(v).len() ==> #[trigger] vstd::utf8::encode_scalar(
                v,
            )[i] != 3,
{
    assert((v & 0x7F) as u8 != 3 || !(v <= 0x7F) || v == 3) by (bit_vector);
    assert((0xC0 | ((v >> 6) & 0x1F) as u8) >= 0x80) by (bit_vector);
    assert((0xE0 | ((v >> 12) & 0x0F) as u8) >= 0x80) by (bit_vector);
    assert((0xF0 | ((v >> 18) & 0x7) as u8) >= 0x80) by (bit_vector);
    assert((0x80 | (v & 0x3F) as u8) >= 0x80) by (bit_vector);
    assert((0x80 | ((v >> 6) & 0x3F) as u8) >= 0x80) by (bit_vector);
    assert((0x80 | ((v >> 12) & 0x3F) as u8) >= 0x80) by (bit_vector);
}

proof fn lemma_encode_no_sentinel(s: Seq<char>)
    requires
        crate::xml::no_sentinel(s),
    ensures
        forall|i: int|
            0 <= i < encode_utf8(s).len() ==> #[trigger] encode_utf8(s)[i] != 3,
    decreases s.len(),
{
    if s.len() > 0 {
        assert(s[0] as u32 != 3);
        lemma_encode_scalar_no_sentinel(s[0] as u32);
        assert(crate::xml::no_sentinel(s.drop_first())) by {
            assert forall|i: int| 0 <= i < s.drop_first().len() implies (
            #[trigger] s.drop_first()[i]) as u32 != 3 by {
                assert(s.drop_first()[i] == s[i + 1]);
            }
        }
        lemma_encode_no_sentinel(s.drop_first());
        assert forall|i: int| 0 <= i < encode_utf8(s).len() implies #[trigger] encode_utf8(s)[i]
            != 3 by {
            assert(encode_utf8(s) == vstd::utf8::encode_scalar(s[0] as u32) + encode_utf8(
                s.drop_first(),
            ));
        }
    }
}

/// Framing safety: the bytes of a framed request built from a
/// well-formed tree carry the sentinel only as their final byte, so the
/// daemon reads exactly one message.
pub proof fn lemma_frame_request_sentinel_safe(t: crate::xml::XNode)
    requires
        crate::xml::wf(t),
    ensures
        ({
            let msg = encode_utf8(
                request_opening() + crate::xml::render_compact(t) + request_closing(),
            );
            forall|i: int| 0 <= i < msg.len() ==> #[trigger] msg[i] != 3
        }),
{
    reveal_strlit("<boinc_gui_rpc_request>\n");
    reveal_strlit("\n</boinc_gui_rpc_request>");
    let text = request_opening() + crate::xml::render_compact(t) + request_closing();
    crate::xml::lemma_render_no_sentinel(t);
    assert(crate::xml::no_sentinel(request_opening()));
    assert(crate::xml::no_sentinel(request_closing()));
    assert(crate::xml::no_sentinel(text)) by {
        assert forall|i: int| 0 <= i < text.len() implies (#[trigger] text[i]) as u32 != 3 by {
            let a = request_opening();
            let b = crate::xml::render_compact(t);
            if i < a.len() {
                assert(text[i] == a[i]);
            } else if i < a.len() + b.len() {
                assert(text[i] == b[i - a.len()]);
            } else {
                assert(text[i] == request_closing()[i - a.len() - b.len()]);
            }
        }
    }
    lemma_encode_no_sentinel(text);
}

} // verus!
