//! The wire codec: every message travels as a 4-byte little-endian length
//! followed by that many payload bytes.
//!
//! The payload layout is a tag byte followed by the fields of the variant.
//! Multi-byte integers are little-endian; an entry identifier travels as a
//! 64-bit integer; a string travels as a 64-bit character count followed by
//! one 32-bit scalar value per character; a colour travels as its four bytes;
//! a sequence travels as a 64-bit count followed by its items. The encoding
//! of a message is given exactly by [`enc_packet`], decoding by
//! [`dec_packet`], and decoding inverts encoding ([`lemma_decode_encode`]).

use crate::canvas::{CanvasElement, CanvasEntry, ElementView, EntryView};
use crate::errors::{DecodeError, EncodeError};
use crate::packets::{PacketView, TcpPacket};
use vstd::bytes::{
    lemma_auto_spec_u16_to_from_le_bytes, lemma_auto_spec_u32_to_from_le_bytes,
    lemma_auto_spec_u64_to_from_le_bytes, spec_u16_from_le_bytes, spec_u16_to_le_bytes,
    spec_u32_from_le_bytes, spec_u32_to_le_bytes, spec_u64_from_le_bytes, spec_u64_to_le_bytes,
    u16_from_le_bytes, u16_to_le_bytes, u32_from_le_bytes, u32_to_le_bytes, u64_from_le_bytes,
    u64_to_le_bytes,
};
use vstd::prelude::*;
use vstd::slice::{slice_index_get, slice_subrange};
use vstd::string::StrSliceExecFns;
use vstd::utf8::{char_is_scalar, char_u32_cast, is_scalar};

verus! {

// ---------------------------------------------------------------------------
// What encoding produces, as spec functions.
// ---------------------------------------------------------------------------
pub open spec fn enc_u16(x: u16) -> Seq<u8> {
    spec_u16_to_le_bytes(x)
}

pub open spec fn enc_u32(x: u32) -> Seq<u8> {
    spec_u32_to_le_bytes(x)
}

pub open spec fn enc_u64(x: u64) -> Seq<u8> {
    spec_u64_to_le_bytes(x)
}

pub open spec fn enc_usize(x: usize) -> Seq<u8> {
    enc_u64(x as u64)
}

pub open spec fn enc_bool(b: bool) -> Seq<u8> {
    seq![if b { 1u8 } else { 0u8 }]
}

pub open spec fn enc_char(c: char) -> Seq<u8> {
    enc_u32(c as u32)
}

pub open spec fn enc_chars(s: Seq<char>) -> Seq<u8>
    decreases s.len(),
{
    if s.len() == 0 {
        Seq::empty()
    } else {
        enc_char(s[0]) + enc_chars(s.drop_first())
    }
}

pub open spec fn enc_string(s: Seq<char>) -> Seq<u8> {
    enc_u64(s.len() as u64) + enc_chars(s)
}

pub open spec fn enc_element(e: ElementView) -> Seq<u8> {
    match e {
        ElementView::Line { x1, y1, x2, y2, colour } => seq![0u8] + enc_u16(x1) + enc_u16(y1)
            + enc_u16(x2) + enc_u16(y2) + colour,
        ElementView::Circle { x, y, radius, colour } => seq![1u8] + enc_u16(x) + enc_u16(y)
            + enc_u16(radius) + colour,
        ElementView::Rect { x, y, width, height, colour } => seq![2u8] + enc_u16(x) + enc_u16(y)
            + enc_u16(width) + enc_u16(height) + colour,
        ElementView::Text { x, y, text, colour } => seq![3u8] + enc_u16(x) + enc_u16(y)
            + enc_string(text) + colour,
    }
}

pub open spec fn enc_entry(e: EntryView) -> Seq<u8> {
    enc_usize(e.id) + enc_bool(e.shown) + enc_element(e.element) + enc_string(e.author)
}

pub open spec fn enc_ids(ids: Seq<usize>) -> Seq<u8>
    decreases ids.len(),
{
    if ids.len() == 0 {
        Seq::empty()
    } else {
        enc_usize(ids[0]) + enc_ids(ids.drop_first())
    }
}

pub open spec fn enc_entries(es: Seq<EntryView>) -> Seq<u8>
    decreases es.len(),
{
    if es.len() == 0 {
        Seq::empty()
    } else {
        enc_entry(es[0]) + enc_entries(es.drop_first())
    }
}

/// The payload bytes of a message (without the frame's length prefix).
pub open spec fn enc_packet(p: PacketView) -> Seq<u8> {
    match p {
        PacketView::Connect(name) => seq![0u8] + enc_string(name),
        PacketView::Disconnect => seq![1u8],
        PacketView::DrawRequest(e) => seq![2u8] + enc_element(e),
        PacketView::DrawResponse(en) => seq![3u8] + enc_entry(en),
        PacketView::Delete(id) => seq![4u8] + enc_usize(id),
        PacketView::ClearRequest { only_owned } => seq![5u8] + enc_bool(only_owned),
        PacketView::ClearResponse { ids_to_delete } => seq![6u8] + enc_u64(
            ids_to_delete.len() as u64,
        ) + enc_ids(ids_to_delete),
        PacketView::UpdateRequest(id, e) => seq![7u8] + enc_usize(id) + enc_element(e),
        PacketView::UpdateResponse(id, en) => seq![8u8] + enc_usize(id) + enc_entry(en),
        PacketView::LoadCanvas(es) => seq![9u8] + enc_u64(es.len() as u64) + enc_entries(es),
        PacketView::Notification(text) => seq![10u8] + enc_string(text),
        PacketView::Undo => seq![11u8],
    }
}

/// A whole frame: 4-byte little-endian payload length, then the payload.
pub open spec fn enc_frame(p: PacketView) -> Seq<u8> {
    enc_u32(enc_packet(p).len() as u32) + enc_packet(p)
}

// ---------------------------------------------------------------------------
// What decoding accepts, as spec functions. Each one takes the bytes still to
// be read and yields the decoded value plus the bytes it did not consume.
// ---------------------------------------------------------------------------
pub open spec fn dec_u8(b: Seq<u8>) -> Option<(u8, Seq<u8>)> {
    if b.len() >= 1 {
        Some((b[0], b.drop_first()))
    } else {
        None
    }
}

pub open spec fn dec_u16(b: Seq<u8>) -> Option<(u16, Seq<u8>)> {
    if b.len() >= 2 {
        Some((spec_u16_from_le_bytes(b.take(2)), b.skip(2)))
    } else {
        None
    }
}

pub open spec fn dec_u32(b: Seq<u8>) -> Option<(u32, Seq<u8>)> {
    if b.len() >= 4 {
        Some((spec_u32_from_le_bytes(b.take(4)), b.skip(4)))
    } else {
        None
    }
}

pub open spec fn dec_u64(b: Seq<u8>) -> Option<(u64, Seq<u8>)> {
    if b.len() >= 8 {
        Some((spec_u64_from_le_bytes(b.take(8)), b.skip(8)))
    } else {
        None
    }
}

pub open spec fn dec_usize(b: Seq<u8>) -> Option<(usize, Seq<u8>)> {
    match dec_u64(b) {
        Some((v, r)) => if v <= usize::MAX as u64 {
            Some((v as usize, r))
        } else {
            None
        },
        None => None,
    }
}

pub open spec fn dec_bool(b: Seq<u8>) -> Option<(bool, Seq<u8>)> {
    match dec_u8(b) {
        Some((v, r)) => if v == 0 {
            Some((false, r))
        } else if v == 1 {
            Some((true, r))
        } else {
            None
        },
        None => None,
    }
}

pub open spec fn dec_char(b: Seq<u8>) -> Option<(char, Seq<u8>)> {
    match dec_u32(b) {
        Some((v, r)) => if is_scalar(v) {
            Some((v as char, r))
        } else {
            None
        },
        None => None,
    }
}

pub open spec fn dec_chars(b: Seq<u8>, n: nat) -> Option<(Seq<char>, Seq<u8>)>
    decreases n,
{
    if n == 0 {
        Some((Seq::empty(), b))
    } else {
        match dec_char(b) {
            Some((c, r)) => match dec_chars(r, (n - 1) as nat) {
                Some((s, r2)) => Some((seq![c] + s, r2)),
                None => None,
            },
            None => None,
        }
    }
}

pub open spec fn dec_string(b: Seq<u8>) -> Option<(Seq<char>, Seq<u8>)> {
    match dec_u64(b) {
        Some((n, r)) => dec_chars(r, n as nat),
        None => None,
    }
}

pub open spec fn dec_colour(b: Seq<u8>) -> Option<(Seq<u8>, Seq<u8>)> {
    if b.len() >= 4 {
        Some((b.take(4), b.skip(4)))
    } else {
        None
    }
}

pub open spec fn dec_element(b: Seq<u8>) -> Option<(ElementView, Seq<u8>)> {
    match dec_u8(b) {
        Some((tag, r0)) => if tag == 0 {
            match dec_u16(r0) {
                Some((x1, r1)) => match dec_u16(r1) {
                    Some((y1, r2)) => match dec_u16(r2) {
                        Some((x2, r3)) => match dec_u16(r3) {
                            Some((y2, r4)) => match dec_colour(r4) {
                                Some((colour, r5)) => Some(
                                    (ElementView::Line { x1, y1, x2, y2, colour }, r5),
                                ),
                                None => None,
                            },
                            None => None,
                        },
                        None => None,
                    },
                    None => None,
                },
                None => None,
            }
        } else if tag == 1 {
            match dec_u16(r0) {
                Some((x, r1)) => match dec_u16(r1) {
                    Some((y, r2)) => match dec_u16(r2) {
                        Some((radius, r3)) => match dec_colour(r3) {
                            Some((colour, r4)) => Some(
                                (ElementView::Circle { x, y, radius, colour }, r4),
                            ),
                            None => None,
                        },
                        None => None,
                    },
                    None => None,
                },
                None => None,
            }
        } else if tag == 2 {
            match dec_u16(r0) {
                Some((x, r1)) => match dec_u16(r1) {
                    Some((y, r2)) => match dec_u16(r2) {
                        Some((width, r3)) => match dec_u16(r3) {
                            Some((height, r4)) => match dec_colour(r4) {
                                Some((colour, r5)) => Some(
                                    (ElementView::Rect { x, y, width, height, colour }, r5),
                                ),
                                None => None,
                            },
                            None => None,
                        },
                        None => None,
                    },
                    None => None,
                },
                None => None,
            }
        } else if tag == 3 {
            match dec_u16(r0) {
                Some((x, r1)) => match dec_u16(r1) {
                    Some((y, r2)) => match dec_string(r2) {
                        Some((text, r3)) => match dec_colour(r3) {
                            Some((colour, r4)) => Some(
                                (ElementView::Text { x, y, text, colour }, r4),
                            ),
                            None => None,
                        },
                        None => None,
                    },
                    None => None,
                },
                None => None,
            }
        } else {
            None
        },
        None => None,
    }
}

pub open spec fn dec_entry(b: Seq<u8>) -> Option<(EntryView, Seq<u8>)> {
    match dec_usize(b) {
        Some((id, r0)) => match dec_bool(r0) {
            Some((shown, r1)) => match dec_element(r1) {
                Some((element, r2)) => match dec_string(r2) {
                    Some((author, r3)) => Some((EntryView { id, shown, element, author }, r3)),
                    None => None,
                },
                None => None,
            },
            None => None,
        },
        None => None,
    }
}

pub open spec fn dec_ids(b: Seq<u8>, n: nat) -> Option<(Seq<usize>, Seq<u8>)>
    decreases n,
{
    if n == 0 {
        Some((Seq::empty(), b))
    } else {
        match dec_usize(b) {
            Some((id, r)) => match dec_ids(r, (n - 1) as nat) {
                Some((ids, r2)) => Some((seq![id] + ids, r2)),
                None => None,
            },
            None => None,
        }
    }
}

pub open spec fn dec_entries(b: Seq<u8>, n: nat) -> Option<(Seq<EntryView>, Seq<u8>)>
    decreases n,
{
    if n == 0 {
        Some((Seq::empty(), b))
    } else {
        match dec_entry(b) {
            Some((e, r)) => match dec_entries(r, (n - 1) as nat) {
                Some((es, r2)) => Some((seq![e] + es, r2)),
                None => None,
            },
            None => None,
        }
    }
}

/// One message read from the front of `b`, with the bytes left over.
pub open spec fn dec_packet_prefix(b: Seq<u8>) -> Option<(PacketView, Seq<u8>)> {
    match dec_u8(b) {
        Some((tag, r0)) => if tag == 0 {
            match dec_string(r0) {
                Some((name, r)) => Some((PacketView::Connect(name), r)),
                None => None,
            }
        } else if tag == 1 {
            Some((PacketView::Disconnect, r0))
        } else if tag == 2 {
            match dec_element(r0) {
                Some((e, r)) => Some((PacketView::DrawRequest(e), r)),
                None => None,
            }
        } else if tag == 3 {
            match dec_entry(r0) {
                Some((en, r)) => Some((PacketView::DrawResponse(en), r)),
                None => None,
            }
        } else if tag == 4 {
            match dec_usize(r0) {
                Some((id, r)) => Some((PacketView::Delete(id), r)),
                None => None,
            }
        } else if tag == 5 {
            match dec_bool(r0) {
                Some((only_owned, r)) => Some((PacketView::ClearRequest { only_owned }, r)),
                None => None,
            }
        } else if tag == 6 {
            match dec_u64(r0) {
                Some((n, r1)) => match dec_ids(r1, n as nat) {
                    Some((ids, r)) => Some((PacketView::ClearResponse { ids_to_delete: ids }, r)),
                    None => None,
                },
                None => None,
            }
        } else if tag == 7 {
            match dec_usize(r0) {
                Some((id, r1)) => match dec_element(r1) {
                    Some((e, r)) => Some((PacketView::UpdateRequest(id, e), r)),
                    None => None,
                },
                None => None,
            }
        } else if tag == 8 {
            match dec_usize(r0) {
                Some((id, r1)) => match dec_entry(r1) {
                    Some((en, r)) => Some((PacketView::UpdateResponse(id, en), r)),
                    None => None,
                },
                None => None,
            }
        } else if tag == 9 {
            match dec_u64(r0) {
                Some((n, r1)) => match dec_entries(r1, n as nat) {
                    Some((es, r)) => Some((PacketView::LoadCanvas(es), r)),
                    None => None,
                },
                None => None,
            }
        } else if tag == 10 {
            match dec_string(r0) {
                Some((text, r)) => Some((PacketView::Notification(text), r)),
                None => None,
            }
        } else if tag == 11 {
            Some((PacketView::Undo, r0))
        } else {
            None
        },
        None => None,
    }
}

/// The message a payload decodes to, if it is exactly one encoded message
/// with nothing trailing.
pub open spec fn dec_packet(b: Seq<u8>) -> Option<PacketView> {
    match dec_packet_prefix(b) {
        Some((p, r)) => if r.len() == 0 {
            Some(p)
        } else {
            None
        },
        None => None,
    }
}

// ---------------------------------------------------------------------------
// Trusted bridges to the standard library.
// ---------------------------------------------------------------------------
/// Relies on char::from_u32: it returns `Some` exactly on Unicode scalar
/// values (not a surrogate, at most 0x10FFFF), and the returned character has
/// the given code point.
#[verifier::external_body]
fn char_from_u32(v: u32) -> (r: Option<char>)
    ensures
        match r {
            Some(c) => c as u32 == v,
            None => !is_scalar(v),
        },
{
    char::from_u32(v)
}

/// Relies on String::push: it appends the given character at the end.
#[verifier::external_body]
fn push_char(s: &mut String, c: char)
    ensures
        final(s)@ == old(s)@ + seq![c],
{
    s.push(c);
}

// ---------------------------------------------------------------------------
// Executable encoding.
// ---------------------------------------------------------------------------
/// Appends every byte of `b` to `out`.
fn write_bytes(out: &mut Vec<u8>, b: &Vec<u8>)
    ensures
        final(out)@ == old(out)@ + b@,
{
    let mut i: usize = 0;
    while i < b.len()
        invariant
            i <= b@.len(),
            out@ == old(out)@ + b@.take(i as int),
        decreases b@.len() - i,
    {
        let ghost before = out@;
        out.push(b[i]);
        proof {
            assert(out@ =~= before.push(b@[i as int]));
            assert(out@ =~= old(out)@ + b@.take(i + 1 as int));
        }
        i = i + 1;
    }
    proof {
        assert(old(out)@ + b@.take(b@.len() as int) =~= old(out)@ + b@);
    }
}

fn write_u8(out: &mut Vec<u8>, v: u8)
    ensures
        final(out)@ == old(out)@ + seq![v],
{
    let ghost before = out@;
    out.push(v);
    proof {
        assert(out@ =~= before + seq![v]);
    }
}

fn write_u16(out: &mut Vec<u8>, x: u16)
    ensures
        final(out)@ == old(out)@ + enc_u16(x),
{
    let b = u16_to_le_bytes(x);
    write_bytes(out, &b);
}

fn write_u32(out: &mut Vec<u8>, x: u32)
    ensures
        final(out)@ == old(out)@ + enc_u32(x),
{
    let b = u32_to_le_bytes(x);
    write_bytes(out, &b);
}

fn write_u64(out: &mut Vec<u8>, x: u64)
    ensures
        final(out)@ == old(out)@ + enc_u64(x),
{
    let b = u64_to_le_bytes(x);
    write_bytes(out, &b);
}

fn write_usize(out: &mut Vec<u8>, x: usize)
    ensures
        final(out)@ == old(out)@ + enc_usize(x),
{
    write_u64(out, x as u64);
}

fn write_bool(out: &mut Vec<u8>, b: bool)
    ensures
        final(out)@ == old(out)@ + enc_bool(b),
{
    write_u8(out, if b { 1 } else { 0 });
}

fn write_char(out: &mut Vec<u8>, c: char)
    ensures
        final(out)@ == old(out)@ + enc_char(c),
{
    write_u32(out, c as u32);
}

/// Encoding one more character extends the encoding of the ones before it.
proof fn lemma_enc_chars_push(s: Seq<char>, c: char)
    ensures
        enc_chars(s.push(c)) =~= enc_chars(s) + enc_char(c),
    decreases s.len(),
{
    if s.len() == 0 {
        let single = s.push(c);
        assert(single[0] == c);
        assert(single.drop_first() =~= Seq::<char>::empty());
        assert(enc_chars(single.drop_first()) == Seq::<u8>::empty());
        assert(enc_chars(single) == enc_char(c) + enc_chars(single.drop_first()));
        assert(enc_chars(s) == Seq::<u8>::empty());
    } else {
        assert(s.push(c)[0] == s[0]);
        assert(s.push(c).drop_first() =~= s.drop_first().push(c));
        lemma_enc_chars_push(s.drop_first(), c);
        assert(enc_chars(s.push(c)) == enc_char(s[0]) + enc_chars(s.drop_first().push(c)));
        assert(enc_chars(s) == enc_char(s[0]) + enc_chars(s.drop_first()));
    }
}

fn write_string(out: &mut Vec<u8>, s: &str)
    ensures
        final(out)@ == old(out)@ + enc_string(s@),
{
    let n = s.unicode_len();
    write_u64(out, n as u64);
    let mut i: usize = 0;
    while i < n
        invariant
            n == s@.len(),
            i <= n,
            out@ == old(out)@ + enc_u64(n as u64) + enc_chars(s@.take(i as int)),
        decreases n - i,
    {
        let c = s.get_char(i);
        write_char(out, c);
        proof {
            lemma_enc_chars_push(s@.take(i as int), c);
            assert(s@.take(i + 1 as int) =~= s@.take(i as int).push(s@[i as int]));
            assert(out@ =~= old(out)@ + enc_u64(n as u64) + enc_chars(s@.take(i + 1 as int)));
        }
        i = i + 1;
    }
    proof {
        assert(s@.take(n as int) =~= s@);
        assert(old(out)@ + enc_u64(n as u64) + enc_chars(s@) =~= old(out)@ + enc_string(s@));
    }
}

fn write_colour(out: &mut Vec<u8>, colour: &[u8; 4])
    ensures
        final(out)@ == old(out)@ + colour@,
{
    write_u8(out, colour[0]);
    write_u8(out, colour[1]);
    write_u8(out, colour[2]);
    write_u8(out, colour[3]);
    proof {
        assert(out@ =~= old(out)@ + colour@);
    }
}

fn write_element(out: &mut Vec<u8>, e: &CanvasElement)
    ensures
        final(out)@ == old(out)@ + enc_element(e@),
{
    match e {
        CanvasElement::Line { x1, y1, x2, y2, colour } => {
            write_u8(out, 0);
            write_u16(out, *x1);
            write_u16(out, *y1);
            write_u16(out, *x2);
            write_u16(out, *y2);
            write_colour(out, colour);
            proof {
                assert(out@ =~= old(out)@ + enc_element(e@));
            }
        },
        CanvasElement::Circle { x, y, radius, colour } => {
            write_u8(out, 1);
            write_u16(out, *x);
            write_u16(out, *y);
            write_u16(out, *radius);
            write_colour(out, colour);
            proof {
                assert(out@ =~= old(out)@ + enc_element(e@));
            }
        },
        CanvasElement::Rect { x, y, width, height, colour } => {
            write_u8(out, 2);
            write_u16(out, *x);
            write_u16(out, *y);
            write_u16(out, *width);
            write_u16(out, *height);
            write_colour(out, colour);
            proof {
                assert(out@ =~= old(out)@ + enc_element(e@));
            }
        },
        CanvasElement::Text { x, y, text, colour } => {
            write_u8(out, 3);
            write_u16(out, *x);
            write_u16(out, *y);
            write_string(out, text.as_str());
            write_colour(out, colour);
            proof {
                assert(out@ =~= old(out)@ + enc_element(e@));
            }
        },
    }
}

fn write_entry(out: &mut Vec<u8>, e: &CanvasEntry)
    ensures
        final(out)@ == old(out)@ + enc_entry(e@),
{
    write_usize(out, e.id);
    write_bool(out, e.shown);
    write_element(out, &e.element);
    write_string(out, e.author.as_str());
    proof {
        assert(out@ =~= old(out)@ + enc_entry(e@));
    }
}

/// Encoding one more identifier extends the encoding of the ones before it.
proof fn lemma_enc_ids_push(ids: Seq<usize>, id: usize)
    ensures
        enc_ids(ids.push(id)) =~= enc_ids(ids) + enc_usize(id),
    decreases ids.len(),
{
    if ids.len() == 0 {
        let single = ids.push(id);
        assert(single[0] == id);
        assert(single.drop_first() =~= Seq::<usize>::empty());
        assert(enc_ids(single.drop_first()) == Seq::<u8>::empty());
        assert(enc_ids(single) == enc_usize(id) + enc_ids(single.drop_first()));
        assert(enc_ids(ids) == Seq::<u8>::empty());
    } else {
        assert(ids.push(id)[0] == ids[0]);
        assert(ids.push(id).drop_first() =~= ids.drop_first().push(id));
        lemma_enc_ids_push(ids.drop_first(), id);
        assert(enc_ids(ids.push(id)) == enc_usize(ids[0]) + enc_ids(ids.drop_first().push(id)));
        assert(enc_ids(ids) == enc_usize(ids[0]) + enc_ids(ids.drop_first()));
    }
}

fn write_ids(out: &mut Vec<u8>, ids: &Vec<usize>)
    ensures
        final(out)@ == old(out)@ + enc_ids(ids@),
{
    let mut i: usize = 0;
    while i < ids.len()
        invariant
            i <= ids@.len(),
            out@ == old(out)@ + enc_ids(ids@.take(i as int)),
        decreases ids@.len() - i,
    {
        write_usize(out, ids[i]);
        proof {
            lemma_enc_ids_push(ids@.take(i as int), ids@[i as int]);
            assert(ids@.take(i + 1 as int) =~= ids@.take(i as int).push(ids@[i as int]));
        }
        i = i + 1;
    }
    proof {
        assert(ids@.take(ids@.len() as int) =~= ids@);
    }
}

/// Encoding one more entry extends the encoding of the ones before it.
proof fn lemma_enc_entries_push(es: Seq<EntryView>, e: EntryView)
    ensures
        enc_entries(es.push(e)) =~= enc_entries(es) + enc_entry(e),
    decreases es.len(),
{
    if es.len() == 0 {
        let single = es.push(e);
        assert(single[0] == e);
        assert(single.drop_first() =~= Seq::<EntryView>::empty());
        assert(enc_entries(single.drop_first()) == Seq::<u8>::empty());
        assert(enc_entries(single) == enc_entry(e) + enc_entries(single.drop_first()));
        assert(enc_entries(es) == Seq::<u8>::empty());
    } else {
        assert(es.push(e)[0] == es[0]);
        assert(es.push(e).drop_first() =~= es.drop_first().push(e));
        lemma_enc_entries_push(es.drop_first(), e);
        assert(enc_entries(es.push(e)) == enc_entry(es[0]) + enc_entries(es.drop_first().push(e)));
        assert(enc_entries(es) == enc_entry(es[0]) + enc_entries(es.drop_first()));
    }
}

fn write_entries(out: &mut Vec<u8>, es: &Vec<CanvasEntry>)
    ensures
        final(out)@ == old(out)@ + enc_entries(es.deep_view()),
{
    let mut i: usize = 0;
    while i < es.len()
        invariant
            i <= es@.len(),
            out@ == old(out)@ + enc_entries(es.deep_view().take(i as int)),
        decreases es@.len() - i,
    {
        write_entry(out, &es[i]);
        proof {
            lemma_enc_entries_push(es.deep_view().take(i as int), es@[i as int]@);
            assert(es.deep_view().take(i + 1 as int) =~= es.deep_view().take(i as int).push(
                es@[i as int]@,
            ));
        }
        i = i + 1;
    }
    proof {
        assert(es.deep_view().take(es.deep_view().len() as int) =~= es.deep_view());
    }
}

/// The payload bytes of one message.
pub fn encode_payload(p: &TcpPacket) -> (r: Vec<u8>)
    ensures
        r@ == enc_packet(p@),
{
    let mut out: Vec<u8> = Vec::new();
    proof {
        assert(out@ =~= Seq::<u8>::empty());
    }
    match p {
        TcpPacket::Connect(name) => {
            write_u8(&mut out, 0);
            write_string(&mut out, name.as_str());
        },
        TcpPacket::Disconnect => {
            write_u8(&mut out, 1);
        },
        TcpPacket::DrawRequest(e) => {
            write_u8(&mut out, 2);
            write_element(&mut out, e);
        },
        TcpPacket::DrawResponse(en) => {
            write_u8(&mut out, 3);
            write_entry(&mut out, en);
        },
        TcpPacket::Delete(id) => {
            write_u8(&mut out, 4);
            write_usize(&mut out, *id);
        },
        TcpPacket::ClearRequest { only_owned } => {
            write_u8(&mut out, 5);
            write_bool(&mut out, *only_owned);
        },
        TcpPacket::ClearResponse { ids_to_delete } => {
            write_u8(&mut out, 6);
            write_u64(&mut out, ids_to_delete.len() as u64);
            write_ids(&mut out, ids_to_delete);
        },
        TcpPacket::UpdateRequest(id, e) => {
            write_u8(&mut out, 7);
            write_usize(&mut out, *id);
            write_element(&mut out, e);
        },
        TcpPacket::UpdateResponse(id, en) => {
            write_u8(&mut out, 8);
            write_usize(&mut out, *id);
            write_entry(&mut out, en);
        },
        TcpPacket::LoadCanvas(es) => {
            write_u8(&mut out, 9);
            write_u64(&mut out, es.len() as u64);
            write_entries(&mut out, es);
        },
        TcpPacket::Notification(text) => {
            write_u8(&mut out, 10);
            write_string(&mut out, text.as_str());
        },
        TcpPacket::Undo => {
            write_u8(&mut out, 11);
        },
    }
    proof {
        assert(out@ =~= enc_packet(p@));
    }
    out
}

impl TcpPacket {
    /// One whole frame for this message: 4-byte little-endian payload length,
    /// then the payload. Fails only when the payload would not fit behind the
    /// 32-bit length prefix.
    pub fn to_bytes(&self) -> (r: Result<Vec<u8>, EncodeError>)
        ensures
            match r {
                Ok(bytes) => enc_packet(self@).len() <= u32::MAX && bytes@ == enc_frame(self@),
                Err(e) => enc_packet(self@).len() > u32::MAX && e == EncodeError::PayloadTooLong,
            },
    {
        let payload = encode_payload(self);
        if payload.len() as u64 > u32::MAX as u64 {
            Err(EncodeError::PayloadTooLong)
        } else {
            let mut out: Vec<u8> = Vec::new();
            proof {
                assert(out@ =~= Seq::<u8>::empty());
            }
            write_u32(&mut out, payload.len() as u32);
            write_bytes(&mut out, &payload);
            proof {
                assert(out@ =~= enc_frame(self@));
            }
            Ok(out)
        }
    }

    /// The message a payload decodes to; fails on anything that is not
    /// exactly one encoded message.
    pub fn try_from_bytes(bytes: &[u8]) -> (r: Result<TcpPacket, DecodeError>)
        ensures
            match r {
                Ok(p) => dec_packet(bytes@) == Some(p@),
                Err(e) => dec_packet(bytes@) is None && e == DecodeError::Malformed,
            },
    {
        let mut pos: usize = 0;
        proof {
            assert(bytes@.skip(0) =~= bytes@);
        }
        match read_packet(bytes, &mut pos) {
            Some(p) => {
                if pos == bytes.len() {
                    proof {
                        assert(bytes@.skip(pos as int).len() == 0);
                    }
                    Ok(p)
                } else {
                    proof {
                        assert(bytes@.skip(pos as int).len() > 0);
                    }
                    Err(DecodeError::Malformed)
                }
            },
            None => Err(DecodeError::Malformed),
        }
    }
}

// ---------------------------------------------------------------------------
// Executable decoding. Each reader consumes from `bytes` at `pos` and agrees
// exactly with its spec counterpart on the bytes still to be read.
// ---------------------------------------------------------------------------
fn read_u8(bytes: &[u8], pos: &mut usize) -> (r: Option<u8>)
    requires
        *old(pos) <= bytes@.len(),
    ensures
        match r {
            Some(v) => *old(pos) <= *final(pos) <= bytes@.len() && dec_u8(
                bytes@.skip(*old(pos) as int),
            ) == Some((v, bytes@.skip(*final(pos) as int))),
            None => dec_u8(bytes@.skip(*old(pos) as int)) is None,
        },
{
    if *pos < bytes.len() {
        let v = *slice_index_get(bytes, *pos);
        proof {
            let pre = bytes@.skip(*pos as int);
            assert(pre[0] == bytes@[*pos as int]);
            assert(pre.drop_first() =~= bytes@.skip(*pos + 1 as int));
        }
        *pos = *pos + 1;
        Some(v)
    } else {
        None
    }
}

fn read_u16(bytes: &[u8], pos: &mut usize) -> (r: Option<u16>)
    requires
        *old(pos) <= bytes@.len(),
    ensures
        match r {
            Some(v) => *old(pos) <= *final(pos) <= bytes@.len() && dec_u16(
                bytes@.skip(*old(pos) as int),
            ) == Some((v, bytes@.skip(*final(pos) as int))),
            None => dec_u16(bytes@.skip(*old(pos) as int)) is None,
        },
{
    if bytes.len() - *pos >= 2 {
        let sub = slice_subrange(bytes, *pos, *pos + 2);
        let v = u16_from_le_bytes(sub);
        proof {
            let pre = bytes@.skip(*pos as int);
            assert(sub@ =~= pre.take(2));
            assert(bytes@.skip(*pos + 2 as int) =~= pre.skip(2));
        }
        *pos = *pos + 2;
        Some(v)
    } else {
        None
    }
}

fn read_u32(bytes: &[u8], pos: &mut usize) -> (r: Option<u32>)
    requires
        *old(pos) <= bytes@.len(),
    ensures
        match r {
            Some(v) => *old(pos) <= *final(pos) <= bytes@.len() && dec_u32(
                bytes@.skip(*old(pos) as int),
            ) == Some((v, bytes@.skip(*final(pos) as int))),
            None => dec_u32(bytes@.skip(*old(pos) as int)) is None,
        },
{
    if bytes.len() - *pos >= 4 {
        let sub = slice_subrange(bytes, *pos, *pos + 4);
        let v = u32_from_le_bytes(sub);
        proof {
            let pre = bytes@.skip(*pos as int);
            assert(sub@ =~= pre.take(4));
            assert(bytes@.skip(*pos + 4 as int) =~= pre.skip(4));
        }
        *pos = *pos + 4;
        Some(v)
    } else {
        None
    }
}

fn read_u64(bytes: &[u8], pos: &mut usize) -> (r: Option<u64>)
    requires
        *old(pos) <= bytes@.len(),
    ensures
        match r {
            Some(v) => *old(pos) <= *final(pos) <= bytes@.len() && dec_u64(
                bytes@.skip(*old(pos) as int),
            ) == Some((v, bytes@.skip(*final(pos) as int))),
            None => dec_u64(bytes@.skip(*old(pos) as int)) is None,
        },
{
    if bytes.len() - *pos >= 8 {
        let sub = slice_subrange(bytes, *pos, *pos + 8);
        let v = u64_from_le_bytes(sub);
        proof {
            let pre = bytes@.skip(*pos as int);
            assert(sub@ =~= pre.take(8));
            assert(bytes@.skip(*pos + 8 as int) =~= pre.skip(8));
        }
        *pos = *pos + 8;
        Some(v)
    } else {
        None
    }
}

fn read_usize(bytes: &[u8], pos: &mut usize) -> (r: Option<usize>)
    requires
        *old(pos) <= bytes@.len(),
    ensures
        match r {
            Some(v) => *old(pos) <= *final(pos) <= bytes@.len() && dec_usize(
                bytes@.skip(*old(pos) as int),
            ) == Some((v, bytes@.skip(*final(pos) as int))),
            None => dec_usize(bytes@.skip(*old(pos) as int)) is None,
        },
{
    match read_u64(bytes, pos) {
        Some(v) => {
            if v <= usize::MAX as u64 {
                Some(v as usize)
            } else {
                None
            }
        },
        None => None,
    }
}

fn read_bool(bytes: &[u8], pos: &mut usize) -> (r: Option<bool>)
    requires
        *old(pos) <= bytes@.len(),
    ensures
        match r {
            Some(v) => *old(pos) <= *final(pos) <= bytes@.len() && dec_bool(
                bytes@.skip(*old(pos) as int),
            ) == Some((v, bytes@.skip(*final(pos) as int))),
            None => dec_bool(bytes@.skip(*old(pos) as int)) is None,
        },
{
    match read_u8(bytes, pos) {
        Some(0) => Some(false),
        Some(1) => Some(true),
        Some(_) => None,
        None => None,
    }
}

fn read_char(bytes: &[u8], pos: &mut usize) -> (r: Option<char>)
    requires
        *old(pos) <= bytes@.len(),
    ensures
        match r {
            Some(c) => *old(pos) <= *final(pos) <= bytes@.len() && dec_char(
                bytes@.skip(*old(pos) as int),
            ) == Some((c, bytes@.skip(*final(pos) as int))),
            None => dec_char(bytes@.skip(*old(pos) as int)) is None,
        },
{
    match read_u32(bytes, pos) {
        Some(v) => match char_from_u32(v) {
            Some(c) => {
                proof {
                    char_is_scalar(c);
                    char_u32_cast(c, v);
                }
                Some(c)
            },
            None => None,
        },
        None => None,
    }
}

fn read_colour(bytes: &[u8], pos: &mut usize) -> (r: Option<[u8; 4]>)
    requires
        *old(pos) <= bytes@.len(),
    ensures
        match r {
            Some(c) => *old(pos) <= *final(pos) <= bytes@.len() && dec_colour(
                bytes@.skip(*old(pos) as int),
            ) == Some((c@, bytes@.skip(*final(pos) as int))),
            None => dec_colour(bytes@.skip(*old(pos) as int)) is None,
        },
{
    if bytes.len() - *pos >= 4 {
        let b0 = *slice_index_get(bytes, *pos);
        let b1 = *slice_index_get(bytes, *pos + 1);
        let b2 = *slice_index_get(bytes, *pos + 2);
        let b3 = *slice_index_get(bytes, *pos + 3);
        let c: [u8; 4] = [b0, b1, b2, b3];
        proof {
            let pre = bytes@.skip(*pos as int);
            assert(c@ =~= pre.take(4));
            assert(bytes@.skip(*pos + 4 as int) =~= pre.skip(4));
        }
        *pos = *pos + 4;
        Some(c)
    } else {
        None
    }
}

fn read_string(bytes: &[u8], pos: &mut usize) -> (r: Option<String>)
    requires
        *old(pos) <= bytes@.len(),
    ensures
        match r {
            Some(s) => *old(pos) <= *final(pos) <= bytes@.len() && dec_string(
                bytes@.skip(*old(pos) as int),
            ) == Some((s@, bytes@.skip(*final(pos) as int))),
            None => dec_string(bytes@.skip(*old(pos) as int)) is None,
        },
{
    let n = match read_u64(bytes, pos) {
        Some(n) => n,
        None => {
            return None;
        },
    };
    let ghost rem0 = bytes@.skip(*pos as int);
    let mut acc = String::new();
    let mut i: u64 = 0;
    while i < n
        invariant
            i <= n,
            *old(pos) <= *pos <= bytes@.len(),
            dec_string(bytes@.skip(*old(pos) as int)) == dec_chars(rem0, n as nat),
            dec_chars(rem0, n as nat) == (match dec_chars(
                bytes@.skip(*pos as int),
                (n - i) as nat,
            ) {
                Some((t, rr)) => Some::<(Seq<char>, Seq<u8>)>((acc@ + t, rr)),
                None => None::<(Seq<char>, Seq<u8>)>,
            }),
        decreases n - i,
    {
        let ghost p0 = *pos;
        let ghost a0 = acc@;
        match read_char(bytes, pos) {
            Some(c) => {
                push_char(&mut acc, c);
                proof {
                    let knext = (n - i - 1) as nat;
                    let post = bytes@.skip(*pos as int);
                    assert(dec_chars(bytes@.skip(p0 as int), (n - i) as nat) == (match dec_chars(
                        post,
                        knext,
                    ) {
                        Some((t, rr)) => Some::<(Seq<char>, Seq<u8>)>((seq![c] + t, rr)),
                        None => None::<(Seq<char>, Seq<u8>)>,
                    }));
                    match dec_chars(post, knext) {
                        Some((t, rr)) => {
                            assert(a0 + (seq![c] + t) =~= (a0 + seq![c]) + t);
                        },
                        None => {},
                    }
                }
                i = i + 1;
            },
            None => {
                proof {
                    assert(dec_chars(bytes@.skip(p0 as int), (n - i) as nat) is None);
                }
                return None;
            },
        }
    }
    proof {
        let post = bytes@.skip(*pos as int);
        assert(dec_chars(post, (n - i) as nat) == Some((Seq::<char>::empty(), post)));
        assert(acc@ + Seq::<char>::empty() =~= acc@);
    }
    Some(acc)
}

fn read_element(bytes: &[u8], pos: &mut usize) -> (r: Option<CanvasElement>)
    requires
        *old(pos) <= bytes@.len(),
    ensures
        match r {
            Some(e) => *old(pos) <= *final(pos) <= bytes@.len() && dec_element(
                bytes@.skip(*old(pos) as int),
            ) == Some((e@, bytes@.skip(*final(pos) as int))),
            None => dec_element(bytes@.skip(*old(pos) as int)) is None,
        },
{
    let tag = match read_u8(bytes, pos) {
        Some(t) => t,
        None => {
            return None;
        },
    };
    if tag == 0 {
        let x1 = match read_u16(bytes, pos) {
            Some(v) => v,
            None => {
                return None;
            },
        };
        let y1 = match read_u16(bytes, pos) {
            Some(v) => v,
            None => {
                return None;
            },
        };
        let x2 = match read_u16(bytes, pos) {
            Some(v) => v,
            None => {
                return None;
            },
        };
        let y2 = match read_u16(bytes, pos) {
            Some(v) => v,
            None => {
                return None;
            },
        };
        let colour = match read_colour(bytes, pos) {
            Some(v) => v,
            None => {
                return None;
            },
        };
        Some(CanvasElement::Line { x1, y1, x2, y2, colour })
    } else if tag == 1 {
        let x = match read_u16(bytes, pos) {
            Some(v) => v,
            None => {
                return None;
            },
        };
        let y = match read_u16(bytes, pos) {
            Some(v) => v,
            None => {
                return None;
            },
        };
        let radius = match read_u16(bytes, pos) {
            Some(v) => v,
            None => {
                return None;
            },
        };
        let colour = match read_colour(bytes, pos) {
            Some(v) => v,
            None => {
                return None;
            },
        };
        Some(CanvasElement::Circle { x, y, radius, colour })
    } else if tag == 2 {
        let x = match read_u16(bytes, pos) {
            Some(v) => v,
            None => {
                return None;
            },
        };
        let y = match read_u16(bytes, pos) {
            Some(v) => v,
            None => {
                return None;
            },
        };
        let width = match read_u16(bytes, pos) {
            Some(v) => v,
            None => {
                return None;
            },
        };
        let height = match read_u16(bytes, pos) {
            Some(v) => v,
            None => {
                return None;
            },
        };
        let colour = match read_colour(bytes, pos) {
            Some(v) => v,
            None => {
                return None;
            },
        };
        Some(CanvasElement::Rect { x, y, width, height, colour })
    } else if tag == 3 {
        let x = match read_u16(bytes, pos) {
            Some(v) => v,
            None => {
                return None;
            },
        };
        let y = match read_u16(bytes, pos) {
            Some(v) => v,
            None => {
                return None;
            },
        };
        let text = match read_string(bytes, pos) {
            Some(v) => v,
            None => {
                return None;
            },
        };
        let colour = match read_colour(bytes, pos) {
            Some(v) => v,
            None => {
                return None;
            },
        };
        Some(CanvasElement::Text { x, y, text, colour })
    } else {
        None
    }
}

fn read_entry(bytes: &[u8], pos: &mut usize) -> (r: Option<CanvasEntry>)
    requires
        *old(pos) <= bytes@.len(),
    ensures
        match r {
            Some(e) => *old(pos) <= *final(pos) <= bytes@.len() && dec_entry(
                bytes@.skip(*old(pos) as int),
            ) == Some((e@, bytes@.skip(*final(pos) as int))),
            None => dec_entry(bytes@.skip(*old(pos) as int)) is None,
        },
{
    let id = match read_usize(bytes, pos) {
        Some(v) => v,
        None => {
            return None;
        },
    };
    let shown = match read_bool(bytes, pos) {
        Some(v) => v,
        None => {
            return None;
        },
    };
    let element = match read_element(bytes, pos) {
        Some(v) => v,
        None => {
            return None;
        },
    };
    let author = match read_string(bytes, pos) {
        Some(v) => v,
        None => {
            return None;
        },
    };
    Some(CanvasEntry { id, shown, element, author })
}

fn read_ids(bytes: &[u8], pos: &mut usize, n: u64) -> (r: Option<Vec<usize>>)
    requires
        *old(pos) <= bytes@.len(),
    ensures
        match r {
            Some(ids) => *old(pos) <= *final(pos) <= bytes@.len() && dec_ids(
                bytes@.skip(*old(pos) as int),
                n as nat,
            ) == Some((ids@, bytes@.skip(*final(pos) as int))),
            None => dec_ids(bytes@.skip(*old(pos) as int), n as nat) is None,
        },
{
    let ghost rem0 = bytes@.skip(*old(pos) as int);
    let mut acc: Vec<usize> = Vec::new();
    let mut i: u64 = 0;
    while i < n
        invariant
            i <= n,
            *old(pos) <= *pos <= bytes@.len(),
            rem0 == bytes@.skip(*old(pos) as int),
            dec_ids(rem0, n as nat) == (match dec_ids(bytes@.skip(*pos as int), (n - i) as nat) {
                Some((t, rr)) => Some::<(Seq<usize>, Seq<u8>)>((acc@ + t, rr)),
                None => None::<(Seq<usize>, Seq<u8>)>,
            }),
        decreases n - i,
    {
        let ghost p0 = *pos;
        let ghost a0 = acc@;
        match read_usize(bytes, pos) {
            Some(id) => {
                acc.push(id);
                proof {
                    let knext = (n - i - 1) as nat;
                    let post = bytes@.skip(*pos as int);
                    assert(acc@ =~= a0 + seq![id]);
                    assert(dec_ids(bytes@.skip(p0 as int), (n - i) as nat) == (match dec_ids(
                        post,
                        knext,
                    ) {
                        Some((t, rr)) => Some::<(Seq<usize>, Seq<u8>)>((seq![id] + t, rr)),
                        None => None::<(Seq<usize>, Seq<u8>)>,
                    }));
                    match dec_ids(post, knext) {
                        Some((t, rr)) => {
                            assert(a0 + (seq![id] + t) =~= (a0 + seq![id]) + t);
                        },
                        None => {},
                    }
                }
                i = i + 1;
            },
            None => {
                proof {
                    assert(dec_ids(bytes@.skip(p0 as int), (n - i) as nat) is None);
                }
                return None;
            },
        }
    }
    proof {
        let post = bytes@.skip(*pos as int);
        assert(dec_ids(post, (n - i) as nat) == Some((Seq::<usize>::empty(), post)));
        assert(acc@ + Seq::<usize>::empty() =~= acc@);
    }
    Some(acc)
}

fn read_entries(bytes: &[u8], pos: &mut usize, n: u64) -> (r: Option<Vec<CanvasEntry>>)
    requires
        *old(pos) <= bytes@.len(),
    ensures
        match r {
            Some(es) => *old(pos) <= *final(pos) <= bytes@.len() && dec_entries(
                bytes@.skip(*old(pos) as int),
                n as nat,
            ) == Some((es.deep_view(), bytes@.skip(*final(pos) as int))),
            None => dec_entries(bytes@.skip(*old(pos) as int), n as nat) is None,
        },
{
    let ghost rem0 = bytes@.skip(*old(pos) as int);
    let mut acc: Vec<CanvasEntry> = Vec::new();
    let mut i: u64 = 0;
    while i < n
        invariant
            i <= n,
            *old(pos) <= *pos <= bytes@.len(),
            rem0 == bytes@.skip(*old(pos) as int),
            dec_entries(rem0, n as nat) == (match dec_entries(
                bytes@.skip(*pos as int),
                (n - i) as nat,
            ) {
                Some((t, rr)) => Some::<(Seq<EntryView>, Seq<u8>)>((acc.deep_view() + t, rr)),
                None => None::<(Seq<EntryView>, Seq<u8>)>,
            }),
        decreases n - i,
    {
        let ghost p0 = *pos;
        let ghost a0 = acc.deep_view();
        match read_entry(bytes, pos) {
            Some(e) => {
                let ghost ev = e@;
                acc.push(e);
                proof {
                    let knext = (n - i - 1) as nat;
                    let post = bytes@.skip(*pos as int);
                    assert(acc.deep_view() =~= a0 + seq![ev]);
                    assert(dec_entries(bytes@.skip(p0 as int), (n - i) as nat) == (match dec_entries(
                        post,
                        knext,
                    ) {
                        Some((t, rr)) => Some::<(Seq<EntryView>, Seq<u8>)>((seq![ev] + t, rr)),
                        None => None::<(Seq<EntryView>, Seq<u8>)>,
                    }));
                    match dec_entries(post, knext) {
                        Some((t, rr)) => {
                            assert(a0 + (seq![ev] + t) =~= (a0 + seq![ev]) + t);
                        },
                        None => {},
                    }
                }
                i = i + 1;
            },
            None => {
                proof {
                    assert(dec_entries(bytes@.skip(p0 as int), (n - i) as nat) is None);
                }
                return None;
            },
        }
    }
    proof {
        let post = bytes@.skip(*pos as int);
        assert(dec_entries(post, (n - i) as nat) == Some((Seq::<EntryView>::empty(), post)));
        assert(acc.deep_view() + Seq::<EntryView>::empty() =~= acc.deep_view());
    }
    Some(acc)
}

fn read_packet(bytes: &[u8], pos: &mut usize) -> (r: Option<TcpPacket>)
    requires
        *old(pos) <= bytes@.len(),
    ensures
        match r {
            Some(p) => *old(pos) <= *final(pos) <= bytes@.len() && dec_packet_prefix(
                bytes@.skip(*old(pos) as int),
            ) == Some((p@, bytes@.skip(*final(pos) as int))),
            None => dec_packet_prefix(bytes@.skip(*old(pos) as int)) is None,
        },
{
    let tag = match read_u8(bytes, pos) {
        Some(t) => t,
        None => {
            return None;
        },
    };
    if tag == 0 {
        match read_string(bytes, pos) {
            Some(name) => Some(TcpPacket::Connect(name)),
            None => None,
        }
    } else if tag == 1 {
        Some(TcpPacket::Disconnect)
    } else if tag == 2 {
        match read_element(bytes, pos) {
            Some(e) => Some(TcpPacket::DrawRequest(e)),
            None => None,
        }
    } else if tag == 3 {
        match read_entry(bytes, pos) {
            Some(en) => Some(TcpPacket::DrawResponse(en)),
            None => None,
        }
    } else if tag == 4 {
        match read_usize(bytes, pos) {
            Some(id) => Some(TcpPacket::Delete(id)),
            None => None,
        }
    } else if tag == 5 {
        match read_bool(bytes, pos) {
            Some(only_owned) => Some(TcpPacket::ClearRequest { only_owned }),
            None => None,
        }
    } else if tag == 6 {
        let n = match read_u64(bytes, pos) {
            Some(n) => n,
            None => {
                return None;
            },
        };
        match read_ids(bytes, pos, n) {
            Some(ids) => Some(TcpPacket::ClearResponse { ids_to_delete: ids }),
            None => None,
        }
    } else if tag == 7 {
        let id = match read_usize(bytes, pos) {
            Some(id) => id,
            None => {
                return None;
            },
        };
        match read_element(bytes, pos) {
            Some(e) => Some(TcpPacket::UpdateRequest(id, e)),
            None => None,
        }
    } else if tag == 8 {
        let id = match read_usize(bytes, pos) {
            Some(id) => id,
            None => {
                return None;
            },
        };
        match read_entry(bytes, pos) {
            Some(en) => Some(TcpPacket::UpdateResponse(id, en)),
            None => None,
        }
    } else if tag == 9 {
        let n = match read_u64(bytes, pos) {
            Some(n) => n,
            None => {
                return None;
            },
        };
        match read_entries(bytes, pos, n) {
            Some(es) => Some(TcpPacket::LoadCanvas(es)),
            None => None,
        }
    } else if tag == 10 {
        match read_string(bytes, pos) {
            Some(text) => Some(TcpPacket::Notification(text)),
            None => None,
        }
    } else if tag == 11 {
        Some(TcpPacket::Undo)
    } else {
        None
    }
}

// ---------------------------------------------------------------------------
// Decoding inverts encoding, for any trailing bytes.
// ---------------------------------------------------------------------------
proof fn lemma_dec_tag(t: u8, rest: Seq<u8>)
    ensures
        dec_u8(seq![t] + rest) == Some((t, rest)),
{
    let b = seq![t] + rest;
    assert(b[0] == t);
    assert(b.drop_first() =~= rest);
}

proof fn lemma_dec_enc_u16(x: u16, rest: Seq<u8>)
    ensures
        dec_u16(enc_u16(x) + rest) == Some((x, rest)),
{
    lemma_auto_spec_u16_to_from_le_bytes();
    let b = enc_u16(x) + rest;
    assert(b.take(2) =~= enc_u16(x));
    assert(b.skip(2) =~= rest);
}

proof fn lemma_dec_enc_u32(x: u32, rest: Seq<u8>)
    ensures
        dec_u32(enc_u32(x) + rest) == Some((x, rest)),
{
    lemma_auto_spec_u32_to_from_le_bytes();
    let b = enc_u32(x) + rest;
    assert(b.take(4) =~= enc_u32(x));
    assert(b.skip(4) =~= rest);
}

proof fn lemma_dec_enc_u64(x: u64, rest: Seq<u8>)
    ensures
        dec_u64(enc_u64(x) + rest) == Some((x, rest)),
{
    lemma_auto_spec_u64_to_from_le_bytes();
    let b = enc_u64(x) + rest;
    assert(b.take(8) =~= enc_u64(x));
    assert(b.skip(8) =~= rest);
}

proof fn lemma_dec_enc_usize(x: usize, rest: Seq<u8>)
    ensures
        dec_usize(enc_usize(x) + rest) == Some((x, rest)),
{
    lemma_dec_enc_u64(x as u64, rest);
}

proof fn lemma_dec_enc_bool(v: bool, rest: Seq<u8>)
    ensures
        dec_bool(enc_bool(v) + rest) == Some((v, rest)),
{
    lemma_dec_tag(if v { 1u8 } else { 0u8 }, rest);
}

proof fn lemma_dec_enc_char(c: char, rest: Seq<u8>)
    ensures
        dec_char(enc_char(c) + rest) == Some((c, rest)),
{
    lemma_dec_enc_u32(c as u32, rest);
    char_is_scalar(c);
    char_u32_cast(c, c as u32);
}

proof fn lemma_dec_enc_chars(s: Seq<char>, rest: Seq<u8>)
    ensures
        dec_chars(enc_chars(s) + rest, s.len()) == Some((s, rest)),
    decreases s.len(),
{
    if s.len() == 0 {
        assert(enc_chars(s) + rest =~= rest);
        assert(s =~= Seq::<char>::empty());
    } else {
        let tail = enc_chars(s.drop_first()) + rest;
        assert(enc_chars(s) + rest =~= enc_char(s[0]) + tail);
        lemma_dec_enc_char(s[0], tail);
        lemma_dec_enc_chars(s.drop_first(), rest);
        assert(seq![s[0]] + s.drop_first() =~= s);
    }
}

proof fn lemma_dec_enc_string(s: Seq<char>, rest: Seq<u8>)
    requires
        s.len() <= u64::MAX,
    ensures
        dec_string(enc_string(s) + rest) == Some((s, rest)),
{
    let tail = enc_chars(s) + rest;
    assert(enc_string(s) + rest =~= enc_u64(s.len() as u64) + tail);
    lemma_dec_enc_u64(s.len() as u64, tail);
    lemma_dec_enc_chars(s, rest);
    assert((s.len() as u64) as nat == s.len());
}

proof fn lemma_dec_enc_colour(c: Seq<u8>, rest: Seq<u8>)
    requires
        c.len() == 4,
    ensures
        dec_colour(c + rest) == Some((c, rest)),
{
    let b = c + rest;
    assert(b.take(4) =~= c);
    assert(b.skip(4) =~= rest);
}

proof fn lemma_dec_enc_element(e: ElementView, rest: Seq<u8>)
    requires
        e.encodable(),
    ensures
        dec_element(enc_element(e) + rest) == Some((e, rest)),
{
    match e {
        ElementView::Line { x1, y1, x2, y2, colour } => {
            let r4 = colour + rest;
            let r3 = enc_u16(y2) + r4;
            let r2 = enc_u16(x2) + r3;
            let r1 = enc_u16(y1) + r2;
            let r0 = enc_u16(x1) + r1;
            assert(enc_element(e) + rest =~= seq![0u8] + r0);
            lemma_dec_tag(0u8, r0);
            lemma_dec_enc_u16(x1, r1);
            lemma_dec_enc_u16(y1, r2);
            lemma_dec_enc_u16(x2, r3);
            lemma_dec_enc_u16(y2, r4);
            lemma_dec_enc_colour(colour, rest);
        },
        ElementView::Circle { x, y, radius, colour } => {
            let r3 = colour + rest;
            let r2 = enc_u16(radius) + r3;
            let r1 = enc_u16(y) + r2;
            let r0 = enc_u16(x) + r1;
            assert(enc_element(e) + rest =~= seq![1u8] + r0);
            lemma_dec_tag(1u8, r0);
            lemma_dec_enc_u16(x, r1);
            lemma_dec_enc_u16(y, r2);
            lemma_dec_enc_u16(radius, r3);
            lemma_dec_enc_colour(colour, rest);
        },
        ElementView::Rect { x, y, width, height, colour } => {
            let r4 = colour + rest;
            let r3 = enc_u16(height) + r4;
            let r2 = enc_u16(width) + r3;
            let r1 = enc_u16(y) + r2;
            let r0 = enc_u16(x) + r1;
            assert(enc_element(e) + rest =~= seq![2u8] + r0);
            lemma_dec_tag(2u8, r0);
            lemma_dec_enc_u16(x, r1);
            lemma_dec_enc_u16(y, r2);
            lemma_dec_enc_u16(width, r3);
            lemma_dec_enc_u16(height, r4);
            lemma_dec_enc_colour(colour, rest);
        },
        ElementView::Text { x, y, text, colour } => {
            let r3 = colour + rest;
            let r2 = enc_string(text) + r3;
            let r1 = enc_u16(y) + r2;
            let r0 = enc_u16(x) + r1;
            assert(enc_element(e) + rest =~= seq![3u8] + r0);
            lemma_dec_tag(3u8, r0);
            lemma_dec_enc_u16(x, r1);
            lemma_dec_enc_u16(y, r2);
            lemma_dec_enc_string(text, r3);
            lemma_dec_enc_colour(colour, rest);
        },
    }
}

proof fn lemma_dec_enc_entry(en: EntryView, rest: Seq<u8>)
    requires
        en.encodable(),
    ensures
        dec_entry(enc_entry(en) + rest) == Some((en, rest)),
{
    let r2 = enc_string(en.author) + rest;
    let r1 = enc_element(en.element) + r2;
    let r0 = enc_bool(en.shown) + r1;
    assert(enc_entry(en) + rest =~= enc_usize(en.id) + r0);
    lemma_dec_enc_usize(en.id, r0);
    lemma_dec_enc_bool(en.shown, r1);
    lemma_dec_enc_element(en.element, r2);
    lemma_dec_enc_string(en.author, rest);
}

proof fn lemma_dec_enc_ids(ids: Seq<usize>, rest: Seq<u8>)
    ensures
        dec_ids(enc_ids(ids) + rest, ids.len()) == Some((ids, rest)),
    decreases ids.len(),
{
    if ids.len() == 0 {
        assert(enc_ids(ids) + rest =~= rest);
        assert(ids =~= Seq::<usize>::empty());
    } else {
        let tail = enc_ids(ids.drop_first()) + rest;
        assert(enc_ids(ids) + rest =~= enc_usize(ids[0]) + tail);
        lemma_dec_enc_usize(ids[0], tail);
        lemma_dec_enc_ids(ids.drop_first(), rest);
        assert(seq![ids[0]] + ids.drop_first() =~= ids);
    }
}

#[verifier::spinoff_prover]
proof fn lemma_dec_enc_entries(es: Seq<EntryView>, rest: Seq<u8>)
    requires
        forall|i: int| 0 <= i < es.len() ==> #[trigger] es[i].encodable(),
    ensures
        dec_entries(enc_entries(es) + rest, es.len()) == Some((es, rest)),
    decreases es.len(),
{
    if es.len() == 0 {
        assert(enc_entries(es) + rest =~= rest);
        assert(es =~= Seq::<EntryView>::empty());
    } else {
        let tail = enc_entries(es.drop_first()) + rest;
        assert(enc_entries(es) + rest =~= enc_entry(es[0]) + tail);
        lemma_dec_enc_entry(es[0], tail);
        assert(forall|i: int|
            0 <= i < es.drop_first().len() ==> #[trigger] es.drop_first()[i].encodable());
        lemma_dec_enc_entries(es.drop_first(), rest);
        assert(seq![es[0]] + es.drop_first() =~= es);
    }
}

#[verifier::rlimit(50)]
proof fn lemma_dec_enc_packet_prefix(p: PacketView, rest: Seq<u8>)
    requires
        p.wf(),
    ensures
        dec_packet_prefix(enc_packet(p) + rest) == Some((p, rest)),
{
    match p {
        PacketView::Connect(name) => {
            let r0 = enc_string(name) + rest;
            assert(enc_packet(p) + rest =~= seq![0u8] + r0);
            lemma_dec_tag(0u8, r0);
            lemma_dec_enc_string(name, rest);
        },
        PacketView::Disconnect => {
            assert(enc_packet(p) + rest =~= seq![1u8] + rest);
            lemma_dec_tag(1u8, rest);
        },
        PacketView::DrawRequest(e) => {
            let r0 = enc_element(e) + rest;
            assert(enc_packet(p) + rest =~= seq![2u8] + r0);
            lemma_dec_tag(2u8, r0);
            lemma_dec_enc_element(e, rest);
        },
        PacketView::DrawResponse(en) => {
            let r0 = enc_entry(en) + rest;
            assert(enc_packet(p) + rest =~= seq![3u8] + r0);
            lemma_dec_tag(3u8, r0);
            lemma_dec_enc_entry(en, rest);
        },
        PacketView::Delete(id) => {
            let r0 = enc_usize(id) + rest;
            assert(enc_packet(p) + rest =~= seq![4u8] + r0);
            lemma_dec_tag(4u8, r0);
            lemma_dec_enc_usize(id, rest);
        },
        PacketView::ClearRequest { only_owned } => {
            let r0 = enc_bool(only_owned) + rest;
            assert(enc_packet(p) + rest =~= seq![5u8] + r0);
            lemma_dec_tag(5u8, r0);
            lemma_dec_enc_bool(only_owned, rest);
        },
        PacketView::ClearResponse { ids_to_delete } => {
            let r1 = enc_ids(ids_to_delete) + rest;
            let r0 = enc_u64(ids_to_delete.len() as u64) + r1;
            assert(enc_packet(p) + rest =~= seq![6u8] + r0);
            lemma_dec_tag(6u8, r0);
            lemma_dec_enc_u64(ids_to_delete.len() as u64, r1);
            lemma_dec_enc_ids(ids_to_delete, rest);
            assert((ids_to_delete.len() as u64) as nat == ids_to_delete.len());
        },
        PacketView::UpdateRequest(id, e) => {
            let r1 = enc_element(e) + rest;
            let r0 = enc_usize(id) + r1;
            assert(enc_packet(p) + rest =~= seq![7u8] + r0);
            lemma_dec_tag(7u8, r0);
            lemma_dec_enc_usize(id, r1);
            lemma_dec_enc_element(e, rest);
        },
        PacketView::UpdateResponse(id, en) => {
            let r1 = enc_entry(en) + rest;
            let r0 = enc_usize(id) + r1;
            assert(enc_packet(p) + rest =~= seq![8u8] + r0);
            lemma_dec_tag(8u8, r0);
            lemma_dec_enc_usize(id, r1);
            lemma_dec_enc_entry(en, rest);
        },
        PacketView::LoadCanvas(es) => {
            let r1 = enc_entries(es) + rest;
            let r0 = enc_u64(es.len() as u64) + r1;
            assert(enc_packet(p) + rest =~= seq![9u8] + r0);
            lemma_dec_tag(9u8, r0);
            lemma_dec_enc_u64(es.len() as u64, r1);
            lemma_dec_enc_entries(es, rest);
            assert((es.len() as u64) as nat == es.len());
        },
        PacketView::Notification(text) => {
            let r0 = enc_string(text) + rest;
            assert(enc_packet(p) + rest =~= seq![10u8] + r0);
            lemma_dec_tag(10u8, r0);
            lemma_dec_enc_string(text, rest);
        },
        PacketView::Undo => {
            assert(enc_packet(p) + rest =~= seq![11u8] + rest);
            lemma_dec_tag(11u8, rest);
        },
    }
}

/// Round trip: decoding the encoding of any well-formed message yields that
/// message back, exactly.
pub proof fn lemma_decode_encode(p: PacketView)
    requires
        p.wf(),
    ensures
        dec_packet(enc_packet(p)) == Some(p),
{
    lemma_dec_enc_packet_prefix(p, Seq::empty());
    assert(enc_packet(p) + Seq::<u8>::empty() =~= enc_packet(p));
}

} // verus!
