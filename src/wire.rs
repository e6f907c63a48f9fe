//! Fields of a protobuf message: a key (field number and wire type) and what
//! follows it, read one at a time from the front of a byte sequence.
use vstd::prelude::*;
use vstd::slice::slice_subrange;
use vstd::string::StringExecFns;
use vstd::utf8::{decode_utf8, valid_utf8};
use crate::ErrorKind;
use crate::varint::{lemma_varint_extend, read_varint, varint_at};

verus! {

/// Wire type of a varint field.
pub const WIRE_VARINT: u64 = 0;

/// Wire type of an eight-byte field.
pub const WIRE_FIXED64: u64 = 1;

/// Wire type of a field that carries a length and that many bytes.
pub const WIRE_LEN: u64 = 2;

/// Wire type of the key that opens a group.
pub const WIRE_START_GROUP: u64 = 3;

/// Wire type of the key that closes a group.
pub const WIRE_END_GROUP: u64 = 4;

/// Wire type of a four-byte field.
pub const WIRE_FIXED32: u64 = 5;

/// How deep fields may nest inside a message before decoding gives up.
pub const NESTING_LIMIT: u32 = 100;

/// The key at the front of `b`: field number, wire type, and its length in
/// bytes. None unless it is a varint of at most 32 bits with a wire type of
/// at most 5 and a field number of at least 1.
pub open spec fn key_at(b: Seq<u8>) -> Option<(nat, nat, nat)> {
    match varint_at(b) {
        None => None,
        Some((key, kl)) => {
            if key > 0xFFFF_FFFF || key % 8 > WIRE_FIXED32 || key / 8 == 0 {
                None
            } else {
                Some((key / 8, key % 8, kl))
            }
        },
    }
}

/// How many bytes at the front of `b` the body of a skipped field takes,
/// given the field number and wire type from its key. `budget` is how many
/// more levels of nesting are allowed; at 0 nothing can be skipped.
pub open spec fn body_len(b: Seq<u8>, tag: nat, wire_type: nat, budget: nat) -> Option<nat>
    decreases b.len(), 1nat,
{
    if budget == 0 {
        None
    } else if wire_type == WIRE_VARINT {
        match varint_at(b) {
            Some((_, n)) => Some(n),
            None => None,
        }
    } else if wire_type == WIRE_FIXED64 {
        if b.len() >= 8 {
            Some(8)
        } else {
            None
        }
    } else if wire_type == WIRE_LEN {
        match varint_at(b) {
            Some((l, n)) => if n + l <= b.len() {
                Some(n + l)
            } else {
                None
            },
            None => None,
        }
    } else if wire_type == WIRE_START_GROUP {
        group_len(b, tag, (budget - 1) as nat)
    } else if wire_type == WIRE_FIXED32 {
        if b.len() >= 4 {
            Some(4)
        } else {
            None
        }
    } else {
        None
    }
}

/// How many bytes at the front of `b` the rest of a group with field number
/// `tag` takes: fields, each skipped with `budget`, up to and with the key
/// that closes the group with the same field number.
pub open spec fn group_len(b: Seq<u8>, tag: nat, budget: nat) -> Option<nat>
    decreases b.len(), 0nat,
{
    match key_at(b) {
        None => None,
        Some((t, wire_type, kl)) => {
            if wire_type == WIRE_END_GROUP {
                if t == tag {
                    Some(kl)
                } else {
                    None
                }
            } else {
                match body_len(b.skip(kl as int), t, wire_type, budget) {
                    None => None,
                    Some(m) => {
                        if kl + m > b.len() {
                            None
                        } else {
                            match group_len(b.skip((kl + m) as int), tag, budget) {
                                Some(r) => Some(kl + m + r),
                                None => None,
                            }
                        }
                    },
                }
            }
        },
    }
}

/// The field at the front of `b`: its field number, its wire type, the bytes
/// it carries (for a length-delimited field, those after the length), and
/// how many bytes it takes in all. None when its key is not valid, when it is
/// a key that closes a group, or when its body cannot be skipped with
/// `budget` levels of nesting.
pub open spec fn field_at(b: Seq<u8>, budget: nat) -> Option<(nat, nat, Seq<u8>, nat)> {
    match key_at(b) {
        None => None,
        Some((tag, wire_type, kl)) => {
            let rest = b.skip(kl as int);
            if wire_type == WIRE_END_GROUP {
                None
            } else {
                match body_len(rest, tag, wire_type, budget) {
                    None => None,
                    Some(m) => {
                        let start = if wire_type == WIRE_LEN {
                            varint_at(rest)->Some_0.1
                        } else {
                            0
                        };
                        if kl + m > b.len() {
                            None
                        } else {
                            Some((tag, wire_type, rest.subrange(start as int, m as int), kl + m))
                        }
                    },
                }
            }
        },
    }
}

proof fn lemma_key_at_extend(u: Seq<u8>, b: Seq<u8>)
    requires
        key_at(u) is Some,
    ensures
        key_at(u + b) == key_at(u),
        key_at(u)->Some_0.2 <= u.len(),
        (u + b).skip(key_at(u)->Some_0.2 as int) == u.skip(key_at(u)->Some_0.2 as int) + b,
{
    lemma_varint_extend(u, b);
    let kl = key_at(u)->Some_0.2;
    assert((u + b).skip(kl as int) =~= u.skip(kl as int) + b);
}

proof fn lemma_body_len_extend(u: Seq<u8>, b: Seq<u8>, tag: nat, wire_type: nat, budget: nat)
    requires
        body_len(u, tag, wire_type, budget) is Some,
    ensures
        body_len(u + b, tag, wire_type, budget) == body_len(u, tag, wire_type, budget),
        body_len(u, tag, wire_type, budget)->Some_0 <= u.len(),
    decreases u.len(), 1nat,
{
    if wire_type == WIRE_VARINT || wire_type == WIRE_LEN {
        lemma_varint_extend(u, b);
    } else if wire_type == WIRE_START_GROUP {
        lemma_group_len_extend(u, b, tag, (budget - 1) as nat);
    }
}

proof fn lemma_group_len_extend(u: Seq<u8>, b: Seq<u8>, tag: nat, budget: nat)
    requires
        group_len(u, tag, budget) is Some,
    ensures
        group_len(u + b, tag, budget) == group_len(u, tag, budget),
        group_len(u, tag, budget)->Some_0 <= u.len(),
    decreases u.len(), 0nat,
{
    lemma_key_at_extend(u, b);
    let (t, wire_type, kl) = key_at(u)->Some_0;
    if wire_type != WIRE_END_GROUP {
        let rest = u.skip(kl as int);
        lemma_body_len_extend(rest, b, t, wire_type, budget);
        let m = body_len(rest, t, wire_type, budget)->Some_0;
        assert((u + b).skip((kl + m) as int) =~= u.skip((kl + m) as int) + b);
        lemma_group_len_extend(u.skip((kl + m) as int), b, tag, budget);
    }
}

/// Bytes after a complete field do not change how it reads.
pub proof fn lemma_field_at_extend(u: Seq<u8>, b: Seq<u8>, budget: nat)
    requires
        field_at(u, budget) is Some,
    ensures
        field_at(u + b, budget) == field_at(u, budget),
{
    lemma_key_at_extend(u, b);
    let (tag, wire_type, kl) = key_at(u)->Some_0;
    let rest = u.skip(kl as int);
    lemma_body_len_extend(rest, b, tag, wire_type, budget);
    let m = body_len(rest, tag, wire_type, budget)->Some_0;
    if wire_type == WIRE_LEN {
        lemma_varint_extend(rest, b);
    }
    let start = if wire_type == WIRE_LEN {
        varint_at(rest)->Some_0.1
    } else {
        0
    };
    assert((rest + b).subrange(start as int, m as int) =~= rest.subrange(start as int, m as int));
}

/// Where a field lies in a buffer: its payload is `start..end`, and the next
/// field begins at `next`.
pub struct Field {
    pub tag: u64,
    pub wire_type: u64,
    pub start: usize,
    pub end: usize,
    pub next: usize,
}

impl Field {
    /// This field is the one that `field_at` finds at `pos` in `b`.
    pub open spec fn found_in(&self, b: Seq<u8>, pos: int, budget: nat) -> bool {
        &&& field_at(b.skip(pos), budget) matches Some((tag, wire_type, payload, n))
        &&& self.tag == tag
        &&& self.wire_type == wire_type
        &&& pos <= self.start <= self.end <= b.len()
        &&& b.subrange(self.start as int, self.end as int) == payload
        &&& self.next == pos + n
        &&& self.next <= b.len()
    }
}

/// Reads the varint that starts at `pos`; on success gives its value and the
/// position after it.
fn varint_from(buf: &[u8], pos: usize) -> (r: Result<(u64, usize), ErrorKind>)
    requires
        pos <= buf@.len(),
    ensures
        match varint_at(buf@.skip(pos as int)) {
            Some((v, n)) => r matches Ok((x, after)) && x as nat == v && after == pos + n
                && after <= buf@.len(),
            None => r == Err::<(u64, usize), ErrorKind>(ErrorKind::MalformedMessage),
        },
{
    let rest = slice_subrange(buf, pos, buf.len());
    assert(rest@ =~= buf@.skip(pos as int));
    match read_varint(rest) {
        Ok((v, left)) => Ok((v, buf.len() - left)),
        Err(_) => Err(ErrorKind::MalformedMessage),
    }
}

/// Reads the key that starts at `pos`: field number, wire type, and the
/// position after it.
fn key_from(buf: &[u8], pos: usize) -> (r: Result<(u64, u64, usize), ErrorKind>)
    requires
        pos <= buf@.len(),
    ensures
        match key_at(buf@.skip(pos as int)) {
            Some((tag, wire_type, kl)) => r matches Ok((t, w, after)) && t == tag && w == wire_type
                && after == pos + kl && after <= buf@.len(),
            None => r == Err::<(u64, u64, usize), ErrorKind>(ErrorKind::MalformedMessage),
        },
{
    let (key, after) = varint_from(buf, pos)?;
    if key > 0xFFFF_FFFF || key % 8 > WIRE_FIXED32 || key / 8 == 0 {
        return Err(ErrorKind::MalformedMessage);
    }
    Ok((key / 8, key % 8, after))
}

/// Skips the body of a field whose key ended at `pos`; gives the position
/// after it.
fn body_end(buf: &[u8], pos: usize, tag: u64, wire_type: u64, budget: u32) -> (r: Result<
    usize,
    ErrorKind,
>)
    requires
        pos <= buf@.len(),
    ensures
        match body_len(buf@.skip(pos as int), tag as nat, wire_type as nat, budget as nat) {
            Some(m) => r matches Ok(e) && e == pos + m && e <= buf@.len(),
            None => r == Err::<usize, ErrorKind>(ErrorKind::MalformedMessage),
        },
    decreases buf@.len() - pos, 1nat,
{
    let len = buf.len();
    if budget == 0 {
        Err(ErrorKind::MalformedMessage)
    } else if wire_type == WIRE_VARINT {
        let (_, after) = varint_from(buf, pos)?;
        Ok(after)
    } else if wire_type == WIRE_FIXED64 {
        if len - pos >= 8 {
            Ok(pos + 8)
        } else {
            Err(ErrorKind::MalformedMessage)
        }
    } else if wire_type == WIRE_LEN {
        let (l, s) = varint_from(buf, pos)?;
        if l <= (len - s) as u64 {
            Ok(s + l as usize)
        } else {
            Err(ErrorKind::MalformedMessage)
        }
    } else if wire_type == WIRE_START_GROUP {
        group_end(buf, pos, tag, budget - 1)
    } else if wire_type == WIRE_FIXED32 {
        if len - pos >= 4 {
            Ok(pos + 4)
        } else {
            Err(ErrorKind::MalformedMessage)
        }
    } else {
        Err(ErrorKind::MalformedMessage)
    }
}

/// Skips the rest of a group with field number `tag` that starts at `pos`;
/// gives the position after the key that closes it.
fn group_end(buf: &[u8], pos: usize, tag: u64, budget: u32) -> (r: Result<usize, ErrorKind>)
    requires
        pos <= buf@.len(),
    ensures
        match group_len(buf@.skip(pos as int), tag as nat, budget as nat) {
            Some(m) => r matches Ok(e) && e == pos + m && e <= buf@.len(),
            None => r == Err::<usize, ErrorKind>(ErrorKind::MalformedMessage),
        },
    decreases buf@.len() - pos, 0nat,
{
    let mut at = pos;
    loop
        invariant
            pos <= at <= buf@.len(),
            match group_len(buf@.skip(at as int), tag as nat, budget as nat) {
                Some(m) => group_len(buf@.skip(pos as int), tag as nat, budget as nat) == Some(
                    (at - pos + m) as nat,
                ),
                None => group_len(buf@.skip(pos as int), tag as nat, budget as nat) is None,
            },
        decreases buf@.len() - at,
    {
        let ghost b = buf@.skip(at as int);
        let (t, wire_type, after) = key_from(buf, at)?;
        assert(b.skip(after - at) =~= buf@.skip(after as int));
        if wire_type == WIRE_END_GROUP {
            if t == tag {
                return Ok(after);
            }
            return Err(ErrorKind::MalformedMessage);
        }
        let next = body_end(buf, after, t, wire_type, budget)?;
        assert(b.skip(next - at) =~= buf@.skip(next as int));
        at = next;
    }
}

/// Reads the field that starts at `pos`, skipping nested groups with at most
/// `budget` levels of nesting.
pub fn next_field(buf: &[u8], pos: usize, budget: u32) -> (r: Result<Field, ErrorKind>)
    requires
        pos <= buf@.len(),
    ensures
        match field_at(buf@.skip(pos as int), budget as nat) {
            Some(_) => r matches Ok(f) && f.found_in(buf@, pos as int, budget as nat),
            None => r == Err::<Field, ErrorKind>(ErrorKind::MalformedMessage),
        },
{
    let ghost b = buf@.skip(pos as int);
    let (tag, wire_type, p) = key_from(buf, pos)?;
    assert(b.skip(p - pos) =~= buf@.skip(p as int));
    if wire_type == WIRE_END_GROUP {
        return Err(ErrorKind::MalformedMessage);
    }
    let next = body_end(buf, p, tag, wire_type, budget)?;
    let start = if wire_type == WIRE_LEN {
        let (_, s) = varint_from(buf, p)?;
        s
    } else {
        p
    };
    assert(buf@.subrange(start as int, next as int) =~= buf@.skip(p as int).subrange(
        start - p,
        next - p,
    ));
    Ok(Field { tag, wire_type, start, end: next, next })
}

/// Relies on std::str::from_utf8: it accepts exactly the well-formed UTF-8
/// byte sequences, and the text it gives is what they encode.
#[verifier::external_body]
fn utf8_text<'a>(b: &'a [u8]) -> (r: Option<&'a str>)
    ensures
        r is Some <==> valid_utf8(b@),
        r matches Some(s) ==> s@ == decode_utf8(b@),
{
    match std::str::from_utf8(b) {
        Ok(s) => Some(s),
        Err(_) => None,
    }
}

/// The text that `buf[start..end]` encodes as UTF-8.
pub fn text_in(buf: &[u8], start: usize, end: usize) -> (r: Result<String, ErrorKind>)
    requires
        start <= end <= buf@.len(),
    ensures
        valid_utf8(buf@.subrange(start as int, end as int)) ==> (r matches Ok(s) && s@
            == decode_utf8(buf@.subrange(start as int, end as int))),
        !valid_utf8(buf@.subrange(start as int, end as int)) ==> r == Err::<String, ErrorKind>(
            ErrorKind::MalformedMessage,
        ),
{
    match utf8_text(slice_subrange(buf, start, end)) {
        Some(s) => Ok(String::from_str(s)),
        None => Err(ErrorKind::MalformedMessage),
    }
}

} // verus!
