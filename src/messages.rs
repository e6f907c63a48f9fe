//! The two messages of a version query and the file reference they carry,
//! with their protobuf encoding.
use vstd::prelude::*;
use vstd::slice::slice_subrange;
use vstd::utf8::{decode_utf8, encode_utf8, encode_utf8_decode_utf8, encode_utf8_valid_utf8, valid_utf8};
use crate::ErrorKind;
use crate::varint::{lemma_varint_round_trip, varint_bytes, write_varint};
use crate::wire::{field_at, lemma_field_at_extend, next_field, text_in, NESTING_LIMIT, WIRE_LEN};

verus! {

/// A file that the plugin reads to find the version.
#[derive(Clone, Debug, PartialEq, Eq, Default)]
pub struct FileRef {
    pub path: String,
}

/// What the host asks of a plugin; `inputs` may be absent.
#[derive(Clone, Debug, PartialEq, Eq, Default)]
pub struct GetVersionRequest {
    pub inputs: Option<FileRef>,
}

/// What a plugin answers; an empty `version` means that none was found.
#[derive(Clone, Debug, PartialEq, Eq, Default)]
pub struct GetVersionResponse {
    pub version: String,
}

impl View for FileRef {
    type V = Seq<char>;

    open spec fn view(&self) -> Seq<char> {
        self.path@
    }
}

impl View for GetVersionRequest {
    type V = Option<Seq<char>>;

    open spec fn view(&self) -> Option<Seq<char>> {
        match self.inputs {
            Some(f) => Some(f@),
            None => None,
        }
    }
}

impl View for GetVersionResponse {
    type V = Seq<char>;

    open spec fn view(&self) -> Seq<char> {
        self.version@
    }
}

/// Key of field number 1 with the length-delimited wire type.
pub const KEY_FIELD_ONE: u64 = 10;

/// A length-delimited field: key, length, payload.
pub open spec fn len_field(tag: nat, payload: Seq<u8>) -> Seq<u8> {
    varint_bytes((tag * 8 + WIRE_LEN) as nat) + varint_bytes(payload.len()) + payload
}

/// A text field as proto3 writes it: left out when the text is empty.
pub open spec fn text_field(tag: nat, s: Seq<char>) -> Seq<u8> {
    if s.len() == 0 {
        Seq::empty()
    } else {
        len_field(tag, encode_utf8(s))
    }
}

/// Encoding of a `FileRef` with this path.
pub open spec fn file_ref_bytes(path: Seq<char>) -> Seq<u8> {
    text_field(1, path)
}

/// Encoding of a request: the file reference, written whenever present.
pub open spec fn request_bytes(inputs: Option<Seq<char>>) -> Seq<u8> {
    match inputs {
        Some(path) => len_field(1, file_ref_bytes(path)),
        None => Seq::empty(),
    }
}

/// Encoding of a response.
pub open spec fn response_bytes(version: Seq<char>) -> Seq<u8> {
    text_field(1, version)
}

/// Decodes the fields of a message whose one known field is text with field
/// number 1 (a `FileRef` or a response), starting from the value `cur`. A
/// later occurrence of the field replaces an earlier one; other field numbers
/// are skipped, with `budget` levels of nesting allowed.
pub open spec fn text_fields(b: Seq<u8>, cur: Seq<char>, budget: nat) -> Option<Seq<char>>
    decreases b.len(),
{
    if b.len() == 0 {
        Some(cur)
    } else {
        match field_at(b, budget) {
            None => None,
            Some((tag, wire_type, payload, n)) => {
                if tag == 1 {
                    if wire_type == WIRE_LEN && valid_utf8(payload) {
                        text_fields(b.skip(n as int), decode_utf8(payload), budget)
                    } else {
                        None
                    }
                } else {
                    text_fields(b.skip(n as int), cur, budget)
                }
            },
        }
    }
}

/// Decodes the fields of a request, starting from `cur`. Each occurrence of
/// field 1 is merged into the file reference decoded so far, one level of
/// nesting deeper.
pub open spec fn request_fields(b: Seq<u8>, cur: Option<Seq<char>>) -> Option<Option<Seq<char>>>
    decreases b.len(),
{
    if b.len() == 0 {
        Some(cur)
    } else {
        match field_at(b, NESTING_LIMIT as nat) {
            None => None,
            Some((tag, wire_type, payload, n)) => {
                if tag == 1 {
                    if wire_type != WIRE_LEN {
                        None
                    } else {
                        let prev = match cur {
                            Some(p) => p,
                            None => Seq::empty(),
                        };
                        match text_fields(payload, prev, (NESTING_LIMIT - 1) as nat) {
                            Some(p) => request_fields(b.skip(n as int), Some(p)),
                            None => None,
                        }
                    }
                } else {
                    request_fields(b.skip(n as int), cur)
                }
            },
        }
    }
}

/// The request that `b` encodes, if any.
pub open spec fn decode_request(b: Seq<u8>) -> Option<Option<Seq<char>>> {
    request_fields(b, None)
}

/// The response that `b` encodes, if any.
pub open spec fn decode_response(b: Seq<u8>) -> Option<Seq<char>> {
    text_fields(b, Seq::empty(), NESTING_LIMIT as nat)
}

/// Appends the bytes of `b` to `out`.
fn append_bytes(out: &mut Vec<u8>, b: &[u8])
    ensures
        final(out)@ == old(out)@ + b@,
{
    let ghost start = out@;
    let mut i: usize = 0;
    while i < b.len()
        invariant
            i <= b@.len(),
            out@ == start + b@.take(i as int),
        decreases b@.len() - i,
    {
        out.push(b[i]);
        i = i + 1;
        assert(out@ =~= start + b@.take(i as int));
    }
    assert(b@.take(i as int) =~= b@);
}

/// Appends field 1 holding `s`, unless `s` is empty.
fn write_text_field(out: &mut Vec<u8>, s: &str)
    ensures
        final(out)@ == old(out)@ + text_field(1, s@),
{
    let bytes = s.as_bytes();
    proof {
        encode_utf8_decode_utf8(s@);
    }
    if bytes.len() > 0 {
        write_varint(KEY_FIELD_ONE, out);
        write_varint(bytes.len() as u64, out);
        append_bytes(out, bytes);
        assert(out@ =~= old(out)@ + text_field(1, s@));
    } else {
        assert(out@ =~= old(out)@ + text_field(1, s@));
    }
}

/// Encodes a request.
pub fn serialize_get_version_request(req: &GetVersionRequest) -> (r: Vec<u8>)
    ensures
        r@ == request_bytes(req@),
{
    let mut out: Vec<u8> = Vec::new();
    match &req.inputs {
        Some(f) => {
            let mut inner: Vec<u8> = Vec::new();
            write_text_field(&mut inner, f.path.as_str());
            write_varint(KEY_FIELD_ONE, &mut out);
            write_varint(inner.len() as u64, &mut out);
            append_bytes(&mut out, inner.as_slice());
            assert(out@ =~= request_bytes(req@));
        },
        None => {
            assert(out@ =~= request_bytes(req@));
        },
    }
    out
}

/// Encodes a response.
pub fn serialize_codegen_response(resp: &GetVersionResponse) -> (r: Vec<u8>)
    ensures
        r@ == response_bytes(resp@),
{
    let mut out: Vec<u8> = Vec::new();
    write_text_field(&mut out, resp.version.as_str());
    assert(out@ =~= response_bytes(resp@));
    out
}

/// Decodes a message whose one known field is text with field number 1,
/// starting from `init`, with `budget` levels of nesting allowed.
fn merge_text_message(buf: &[u8], init: String, budget: u32) -> (r: Result<String, ErrorKind>)
    ensures
        match text_fields(buf@, init@, budget as nat) {
            Some(t) => r matches Ok(s) && s@ == t,
            None => r == Err::<String, ErrorKind>(ErrorKind::MalformedMessage),
        },
{
    let mut cur = init;
    let mut pos: usize = 0;
    assert(buf@.skip(0) =~= buf@);
    while pos < buf.len()
        invariant
            pos <= buf@.len(),
            text_fields(buf@.skip(pos as int), cur@, budget as nat) == text_fields(
                buf@,
                init@,
                budget as nat,
            ),
        decreases buf@.len() - pos,
    {
        let ghost b = buf@.skip(pos as int);
        let f = next_field(buf, pos, budget)?;
        assert(b.skip(f.next - pos) =~= buf@.skip(f.next as int));
        if f.tag == 1 {
            if f.wire_type != WIRE_LEN {
                return Err(ErrorKind::MalformedMessage);
            }
            cur = text_in(buf, f.start, f.end)?;
        }
        pos = f.next;
    }
    assert(buf@.skip(pos as int) =~= Seq::<u8>::empty());
    Ok(cur)
}

/// Decodes a request; fails on bytes that are not the encoding of one.
pub fn deserialize_get_version_request(buf: &[u8]) -> (r: Result<GetVersionRequest, ErrorKind>)
    ensures
        match decode_request(buf@) {
            Some(v) => r matches Ok(q) && q@ == v,
            None => r == Err::<GetVersionRequest, ErrorKind>(ErrorKind::MalformedMessage),
        },
{
    let mut cur: Option<FileRef> = None;
    let mut pos: usize = 0;
    assert(buf@.skip(0) =~= buf@);
    while pos < buf.len()
        invariant
            pos <= buf@.len(),
            request_fields(buf@.skip(pos as int), GetVersionRequest { inputs: cur }@)
                == decode_request(buf@),
        decreases buf@.len() - pos,
    {
        let ghost b = buf@.skip(pos as int);
        let f = next_field(buf, pos, NESTING_LIMIT)?;
        assert(b.skip(f.next - pos) =~= buf@.skip(f.next as int));
        if f.tag == 1 {
            if f.wire_type != WIRE_LEN {
                return Err(ErrorKind::MalformedMessage);
            }
            let prev = match cur {
                Some(file) => file.path,
                None => String::new(),
            };
            let path = merge_text_message(
                slice_subrange(buf, f.start, f.end),
                prev,
                NESTING_LIMIT - 1,
            )?;
            cur = Some(FileRef { path });
        }
        pos = f.next;
    }
    assert(buf@.skip(pos as int) =~= Seq::<u8>::empty());
    Ok(GetVersionRequest { inputs: cur })
}

/// Decodes a response; fails on bytes that are not the encoding of one.
pub fn deserialize_get_version_response(buf: &[u8]) -> (r: Result<GetVersionResponse, ErrorKind>)
    ensures
        match decode_response(buf@) {
            Some(v) => r matches Ok(q) && q@ == v,
            None => r == Err::<GetVersionResponse, ErrorKind>(ErrorKind::MalformedMessage),
        },
{
    let version = merge_text_message(buf, String::new(), NESTING_LIMIT)?;
    Ok(GetVersionResponse { version })
}

/// Text that a `String` can hold: its UTF-8 encoding is at most
/// `isize::MAX` bytes long.
pub open spec fn text_fits(s: Seq<char>) -> bool {
    encode_utf8(s).len() <= isize::MAX
}

proof fn lemma_len_field_at(tag: nat, payload: Seq<u8>, rest: Seq<u8>, budget: nat)
    requires
        1 <= tag,
        1 <= budget,
        tag * 8 + WIRE_LEN <= 0xFFFF_FFFF,
        payload.len() <= u64::MAX,
    ensures
        field_at(len_field(tag, payload) + rest, budget) == Some(
            (tag, WIRE_LEN as nat, payload, len_field(tag, payload).len()),
        ),
        len_field(tag, payload).len() <= payload.len() + 20,
{
    let key = (tag * 8 + WIRE_LEN) as u64;
    let l = payload.len() as u64;
    let b = len_field(tag, payload) + rest;
    let after_key = varint_bytes(l as nat) + payload + rest;
    assert(b =~= varint_bytes(key as nat) + after_key);
    lemma_varint_round_trip(key, after_key);
    lemma_varint_round_trip(l, payload + rest);
    let kl = varint_bytes(key as nat).len();
    let n = varint_bytes(l as nat).len();
    assert(key % 8 == WIRE_LEN && key / 8 == tag);
    assert(b.skip(kl as int) =~= varint_bytes(l as nat) + (payload + rest));
    assert(b.skip(kl as int).subrange(n as int, n + l) =~= payload);
}

proof fn lemma_text_field_decodes(s: Seq<char>, cur: Seq<char>, budget: nat)
    requires
        text_fits(s),
        1 <= budget,
    ensures
        text_fields(text_field(1, s), cur, budget) == Some(if s.len() == 0 { cur } else { s }),
        text_field(1, s).len() <= encode_utf8(s).len() + 20,
{
    let b = text_field(1, s);
    if s.len() == 0 {
        assert(b.len() == 0);
    } else {
        let e = encode_utf8(s);
        lemma_len_field_at(1, e, Seq::empty(), budget);
        assert(b + Seq::<u8>::empty() =~= b);
        encode_utf8_valid_utf8(s);
        encode_utf8_decode_utf8(s);
        assert(b.skip(b.len() as int) =~= Seq::<u8>::empty());
        assert(text_fields(Seq::<u8>::empty(), s, budget) == Some(s));
    }
}

/// Decoding the encoding of a response gives back that response.
pub proof fn lemma_response_round_trip(resp: GetVersionResponse)
    requires
        text_fits(resp@),
    ensures
        decode_response(response_bytes(resp@)) == Some(resp@),
{
    lemma_text_field_decodes(resp@, Seq::empty(), NESTING_LIMIT as nat);
}

/// Decoding the encoding of a request gives back that request.
pub proof fn lemma_request_round_trip(req: GetVersionRequest)
    requires
        req@ matches Some(path) ==> text_fits(path),
    ensures
        decode_request(request_bytes(req@)) == Some(req@),
{
    if let Some(path) = req@ {
        let f = file_ref_bytes(path);
        lemma_text_field_decodes(path, Seq::empty(), (NESTING_LIMIT - 1) as nat);
        lemma_len_field_at(1, f, Seq::empty(), NESTING_LIMIT as nat);
        let b = request_bytes(req@);
        assert(b + Seq::<u8>::empty() =~= b);
        assert(b.skip(b.len() as int) =~= Seq::<u8>::empty());
        if path.len() == 0 {
            assert(path =~= Seq::<char>::empty());
        }
        assert(text_fields(f, Seq::empty(), (NESTING_LIMIT - 1) as nat) == Some(path));
        assert(request_fields(Seq::<u8>::empty(), Some(path)) == Some(Some(path)));
    }
}

/// A complete field with a number other than 1 in front of a message is
/// skipped: the request or response decodes as the message alone does.
pub proof fn lemma_unknown_field_skipped(u: Seq<u8>, b: Seq<u8>)
    requires
        field_at(u, NESTING_LIMIT as nat) matches Some((tag, _, _, n)) && tag != 1 && n == u.len(),
    ensures
        decode_response(u + b) == decode_response(b),
        decode_request(u + b) == decode_request(b),
{
    lemma_field_at_extend(u, b, NESTING_LIMIT as nat);
    assert((u + b).skip(u.len() as int) =~= b);
}

proof fn lemma_text_fields_append(b: Seq<u8>, u: Seq<u8>, cur: Seq<char>, budget: nat)
    requires
        text_fields(b, cur, budget) is Some,
        field_at(u, budget) matches Some((tag, _, _, n)) && tag != 1 && n == u.len(),
    ensures
        text_fields(b + u, cur, budget) == text_fields(b, cur, budget),
    decreases b.len(),
{
    if b.len() == 0 {
        assert(b + u =~= u);
        assert(u.skip(u.len() as int) =~= Seq::<u8>::empty());
        assert(text_fields(Seq::<u8>::empty(), cur, budget) == Some(cur));
    } else {
        let (tag, wire_type, payload, n) = field_at(b, budget)->Some_0;
        lemma_field_at_extend(b, u, budget);
        assert((b + u).skip(n as int) =~= b.skip(n as int) + u);
        let next = if tag == 1 {
            decode_utf8(payload)
        } else {
            cur
        };
        lemma_text_fields_append(b.skip(n as int), u, next, budget);
    }
}

proof fn lemma_request_fields_append(b: Seq<u8>, u: Seq<u8>, cur: Option<Seq<char>>)
    requires
        request_fields(b, cur) is Some,
        field_at(u, NESTING_LIMIT as nat) matches Some((tag, _, _, n)) && tag != 1 && n == u.len(),
    ensures
        request_fields(b + u, cur) == request_fields(b, cur),
    decreases b.len(),
{
    if b.len() == 0 {
        assert(b + u =~= u);
        assert(u.skip(u.len() as int) =~= Seq::<u8>::empty());
        assert(request_fields(Seq::<u8>::empty(), cur) == Some(cur));
    } else {
        let (tag, wire_type, payload, n) = field_at(b, NESTING_LIMIT as nat)->Some_0;
        lemma_field_at_extend(b, u, NESTING_LIMIT as nat);
        assert((b + u).skip(n as int) =~= b.skip(n as int) + u);
        let prev = match cur {
            Some(p) => p,
            None => Seq::empty(),
        };
        let next = if tag == 1 {
            Some(text_fields(payload, prev, (NESTING_LIMIT - 1) as nat)->Some_0)
        } else {
            cur
        };
        lemma_request_fields_append(b.skip(n as int), u, next);
    }
}

/// A complete field with a number other than 1 after a request or response
/// is skipped: the message decodes as it does without it.
pub proof fn lemma_unknown_field_appended(b: Seq<u8>, u: Seq<u8>)
    requires
        field_at(u, NESTING_LIMIT as nat) matches Some((tag, _, _, n)) && tag != 1 && n == u.len(),
    ensures
        decode_response(b) is Some ==> decode_response(b + u) == decode_response(b),
        decode_request(b) is Some ==> decode_request(b + u) == decode_request(b),
{
    if decode_response(b) is Some {
        lemma_text_fields_append(b, u, Seq::empty(), NESTING_LIMIT as nat);
    }
    if decode_request(b) is Some {
        lemma_request_fields_append(b, u, None);
    }
}

} // verus!
