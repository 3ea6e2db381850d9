//! The wire codec: classification and emission of application frames.
//!
//! A frame is a receipt (`RCPT:` + `D`|`R` + `:` + hyphenated id), a group
//! invite (`GROUP_INVITE:` + name + `:` + group id + `:` + sealed key) or
//! plain text. Classification is total: anything that is not a well-formed
//! receipt or invite is text.

use vstd::prelude::*;
use vstd::slice::slice_subrange;
use vstd::slice::slice_to_vec;
use crate::types::MessageId;
use crate::types::ReceiptType;

verus! {

/// Lower-case hexadecimal digit of a nibble.
pub open spec fn hex_digit(n: int) -> u8 {
    if n < 10 {
        (48 + n) as u8
    } else {
        (87 + n) as u8
    }
}

/// Value of a hexadecimal digit of either case.
pub open spec fn hex_value(c: u8) -> Option<int> {
    if 48 <= c <= 57 {
        Some(c - 48)
    } else if 97 <= c <= 102 {
        Some(c - 87)
    } else if 65 <= c <= 70 {
        Some(c - 55)
    } else {
        None
    }
}

/// Positions of the four hyphens in the 36-character id text.
pub open spec fn is_hyphen_pos(k: int) -> bool {
    k == 8 || k == 13 || k == 18 || k == 23
}

/// Number of hyphens before text position `k`.
pub open spec fn hyphens_before(k: int) -> int {
    if k < 9 {
        0
    } else if k < 14 {
        1
    } else if k < 19 {
        2
    } else if k < 24 {
        3
    } else {
        4
    }
}

/// Text position of hex digit `j` (0..32).
pub open spec fn digit_pos(j: int) -> int {
    if j < 8 {
        j
    } else if j < 12 {
        j + 1
    } else if j < 16 {
        j + 2
    } else if j < 20 {
        j + 3
    } else {
        j + 4
    }
}

/// Hyphenated lower-case text of a 16-byte id (8-4-4-4-12 digits).
pub open spec fn id_text(b: Seq<u8>) -> Seq<u8> {
    Seq::new(
        36,
        |k: int|
            if is_hyphen_pos(k) {
                45u8
            } else {
                let j = k - hyphens_before(k);
                if j % 2 == 0 {
                    hex_digit(b[j / 2] as int / 16)
                } else {
                    hex_digit(b[j / 2] as int % 16)
                }
            },
    )
}

/// Whether `t` is a hyphenated id text with digits of either case.
pub open spec fn is_id_text(t: Seq<u8>) -> bool {
    &&& t.len() == 36
    &&& forall|k: int|
        0 <= k < 36 ==> if is_hyphen_pos(k) {
            t[k] == 45
        } else {
            hex_value(t[k]) is Some
        }
}

/// The 16 bytes that a hyphenated id text denotes.
pub open spec fn id_of_text(t: Seq<u8>) -> Option<Seq<u8>> {
    if is_id_text(t) {
        Some(
            Seq::new(
                16,
                |i: int|
                    (hex_value(t[digit_pos(2 * i)]).unwrap() * 16 + hex_value(
                        t[digit_pos(2 * i + 1)],
                    ).unwrap()) as u8,
            ),
        )
    } else {
        None
    }
}

/// Relies on uuid's `Uuid::try_parse_ascii`: a 36-byte input parses exactly
/// when it is hyphenated hex text, each byte taken from two digits.
#[verifier::external_body]
fn parse_id_text(t: &[u8]) -> (r: Option<MessageId>)
    requires
        t@.len() == 36,
    ensures
        r is Some <==> id_of_text(t@) is Some,
        r is Some ==> r.unwrap()@ == id_of_text(t@).unwrap(),
{
    uuid::Uuid::try_parse_ascii(t).ok().map(|u| MessageId { bytes: *u.as_bytes() })
}

/// Relies on uuid's `Hyphenated::encode_lower`: the 36-byte lower-case
/// hyphenated text of the id.
#[verifier::external_body]
fn encode_id_text(id: &MessageId) -> (r: Vec<u8>)
    ensures
        r@ == id_text(id@),
{
    let mut buf = [0u8; 36];
    uuid::Uuid::from_bytes(id.bytes).hyphenated().encode_lower(&mut buf);
    buf.to_vec()
}

/// The hyphenated text of an id, as bytes.
pub fn message_id_text(id: &MessageId) -> (r: Vec<u8>)
    ensures
        r@ == id_text(id@),
{
    encode_id_text(id)
}

/// The id that a hyphenated text denotes, if it is one.
pub fn message_id_from_text(t: &[u8]) -> (r: Option<MessageId>)
    ensures
        t@.len() == 36 ==> (r is Some <==> id_of_text(t@) is Some),
        t@.len() != 36 ==> r is None,
        r is Some ==> r.unwrap()@ == id_of_text(t@).unwrap(),
{
    if t.len() != 36 {
        return None;
    }
    parse_id_text(t)
}


proof fn lemma_hex_digit_value(n: int)
    requires
        0 <= n < 16,
    ensures
        hex_value(hex_digit(n)) == Some(n),
{
}

/// Reading back the text of an id gives the id.
pub proof fn lemma_id_text_round_trip(b: Seq<u8>)
    requires
        b.len() == 16,
    ensures
        id_of_text(id_text(b)) == Some(b),
{
    let t = id_text(b);
    assert forall|k: int| 0 <= k < 36 implies (if is_hyphen_pos(k) {
        t[k] == 45
    } else {
        hex_value(t[k]) is Some
    }) by {
        if !is_hyphen_pos(k) {
            let j = k - hyphens_before(k);
            assert(0 <= j < 32);
            assert(0 <= j / 2 < 16);
            let x = b[j / 2] as int;
            lemma_hex_digit_value(x / 16);
            lemma_hex_digit_value(x % 16);
        }
    }
    assert(is_id_text(t));
    let s = id_of_text(t).unwrap();
    assert forall|i: int| 0 <= i < 16 implies s[i] == b[i] by {
        let k0 = digit_pos(2 * i);
        let k1 = digit_pos(2 * i + 1);
        assert(!is_hyphen_pos(k0) && k0 - hyphens_before(k0) == 2 * i);
        assert(!is_hyphen_pos(k1) && k1 - hyphens_before(k1) == 2 * i + 1);
        assert((2 * i) / 2 == i && (2 * i) % 2 == 0);
        assert((2 * i + 1) / 2 == i && (2 * i + 1) % 2 == 1);
        let x = b[i] as int;
        lemma_hex_digit_value(x / 16);
        lemma_hex_digit_value(x % 16);
        assert(x / 16 * 16 + x % 16 == x);
    }
    assert(s =~= b);
}

} // verus!

verus! {

/// A classified application frame.
#[derive(Debug)]
pub enum Frame {
    /// A delivery or read receipt for the message with this id.
    Receipt(MessageId, ReceiptType),
    /// An invitation to a group: its name, its id and its symmetric key
    /// sealed to the invitee.
    Invite { name: Vec<u8>, group_id: MessageId, sealed_key: Vec<u8> },
    /// Anything else: the payload bytes as they are.
    Text(Vec<u8>),
}

/// Mathematical form of a frame.
pub enum FrameView {
    Receipt(Seq<u8>, ReceiptType),
    Invite(Seq<u8>, Seq<u8>, Seq<u8>),
    Text(Seq<u8>),
}

impl View for Frame {
    type V = FrameView;

    open spec fn view(&self) -> FrameView {
        match self {
            Frame::Receipt(id, k) => FrameView::Receipt(id@, *k),
            Frame::Invite { name, group_id, sealed_key } => FrameView::Invite(
                name@,
                group_id@,
                sealed_key@,
            ),
            Frame::Text(b) => FrameView::Text(b@),
        }
    }
}

/// `RCPT:`
pub open spec fn receipt_tag() -> Seq<u8> {
    seq![82u8, 67u8, 80u8, 84u8, 58u8]
}

/// `GROUP_INVITE:`
pub open spec fn invite_tag() -> Seq<u8> {
    seq![71u8, 82u8, 79u8, 85u8, 80u8, 95u8, 73u8, 78u8, 86u8, 73u8, 84u8, 69u8, 58u8]
}

/// `D` for delivered, `R` for read.
pub open spec fn kind_byte(k: ReceiptType) -> u8 {
    match k {
        ReceiptType::Delivered => 68u8,
        ReceiptType::Read => 82u8,
    }
}

/// The receipt that a buffer holds, if it is receipt-shaped with a valid id.
pub open spec fn receipt_of(b: Seq<u8>) -> Option<(Seq<u8>, ReceiptType)> {
    if b.len() >= 43 && b.subrange(0, 5) == receipt_tag() && (b[5] == 68 || b[5] == 82) && b[6]
        == 58 && id_of_text(b.subrange(7, 43)) is Some {
        Some(
            (
                id_of_text(b.subrange(7, 43)).unwrap(),
                if b[5] == 68 {
                    ReceiptType::Delivered
                } else {
                    ReceiptType::Read
                },
            ),
        )
    } else {
        None
    }
}

/// Index of the first `:` at or after `i`, or the length if there is none.
pub open spec fn colon_from(b: Seq<u8>, i: int) -> int
    decreases b.len() - i,
{
    if i >= b.len() {
        b.len() as int
    } else if b[i] == 58 {
        i
    } else {
        colon_from(b, i + 1)
    }
}

/// The invite that a buffer holds: the name runs to the first `:` after the
/// tag, then come a 36-byte id text, a `:` and the sealed key.
pub open spec fn invite_of(b: Seq<u8>) -> Option<(Seq<u8>, Seq<u8>, Seq<u8>)> {
    if b.len() >= 13 && b.subrange(0, 13) == invite_tag() {
        let p = colon_from(b, 13);
        if p + 38 <= b.len() && b[p + 37] == 58 && id_of_text(b.subrange(p + 1, p + 37)) is Some {
            Some(
                (
                    b.subrange(13, p),
                    id_of_text(b.subrange(p + 1, p + 37)).unwrap(),
                    b.subrange(p + 38, b.len() as int),
                ),
            )
        } else {
            None
        }
    } else {
        None
    }
}

/// Classification: receipt first, then invite, else text.
pub open spec fn classify_spec(b: Seq<u8>) -> FrameView {
    match receipt_of(b) {
        Some((id, k)) => FrameView::Receipt(id, k),
        None => match invite_of(b) {
            Some((n, g, c)) => FrameView::Invite(n, g, c),
            None => FrameView::Text(b),
        },
    }
}

/// Emission of a frame as bytes.
pub open spec fn emit_spec(f: FrameView) -> Seq<u8> {
    match f {
        FrameView::Receipt(id, k) => receipt_tag() + seq![kind_byte(k), 58u8] + id_text(id),
        FrameView::Invite(n, g, c) => invite_tag() + n + seq![58u8] + id_text(g) + seq![58u8] + c,
        FrameView::Text(b) => b,
    }
}

/// Frames that emission can carry faithfully: ids of 16 bytes, invite names
/// without `:`, and text that does not itself read as a receipt or invite.
pub open spec fn emittable(f: FrameView) -> bool {
    match f {
        FrameView::Receipt(id, _) => id.len() == 16,
        FrameView::Invite(n, g, _) => g.len() == 16 && forall|i: int|
            0 <= i < n.len() ==> n[i] != 58,
        FrameView::Text(b) => classify_spec(b) == FrameView::Text(b),
    }
}

fn receipt_tag_bytes() -> (r: Vec<u8>)
    ensures
        r@ == receipt_tag(),
{
    let r: Vec<u8> = vec![82u8, 67u8, 80u8, 84u8, 58u8];
    assert(r@ =~= receipt_tag());
    r
}

fn invite_tag_bytes() -> (r: Vec<u8>)
    ensures
        r@ == invite_tag(),
{
    let r: Vec<u8> = vec![71u8, 82u8, 79u8, 85u8, 80u8, 95u8, 73u8, 78u8, 86u8, 73u8, 84u8, 69u8, 58u8];
    assert(r@ =~= invite_tag());
    r
}

/// Whether `b` starts with `tag`.
fn starts_with(b: &[u8], tag: &Vec<u8>) -> (r: bool)
    ensures
        r == (b@.len() >= tag@.len() && b@.subrange(0, tag@.len() as int) == tag@),
{
    if b.len() < tag.len() {
        return false;
    }
    let mut i: usize = 0;
    while i < tag.len()
        invariant
            i <= tag@.len() <= b@.len(),
            forall|k: int| 0 <= k < i ==> b@[k] == tag@[k],
        decreases tag@.len() - i,
    {
        if b[i] != tag[i] {
            assert(b@.subrange(0, tag@.len() as int)[i as int] != tag@[i as int]);
            return false;
        }
        i = i + 1;
    }
    assert(b@.subrange(0, tag@.len() as int) =~= tag@);
    true
}

/// Appends the bytes of `src` to `dst`.
pub(crate) fn append_bytes(dst: &mut Vec<u8>, src: &[u8])
    ensures
        final(dst)@ == old(dst)@ + src@,
{
    let mut i: usize = 0;
    let ghost start = dst@;
    while i < src.len()
        invariant
            i <= src@.len(),
            dst@ == start + src@.subrange(0, i as int),
        decreases src@.len() - i,
    {
        dst.push(src[i]);
        i = i + 1;
        assert(dst@ =~= start + src@.subrange(0, i as int));
    }
    assert(src@.subrange(0, src@.len() as int) =~= src@);
}

/// Parses a receipt frame.
pub fn parse_receipt(data: &[u8]) -> (r: Option<(MessageId, ReceiptType)>)
    ensures
        match r {
            Some((id, k)) => receipt_of(data@) == Some((id@, k)),
            None => receipt_of(data@) is None,
        },
{
    let tag = receipt_tag_bytes();
    if !starts_with(data, &tag) || data.len() < 43 {
        return None;
    }
    let kind = if data[5] == 68u8 {
        ReceiptType::Delivered
    } else if data[5] == 82u8 {
        ReceiptType::Read
    } else {
        return None;
    };
    if data[6] != 58u8 {
        return None;
    }
    let text = slice_subrange(data, 7, 43);
    match message_id_from_text(text) {
        Some(id) => Some((id, kind)),
        None => None,
    }
}

/// Emits a receipt frame: `RCPT:` + `D`|`R` + `:` + the id text.
pub fn create_receipt(id: &MessageId, kind: ReceiptType) -> (r: Vec<u8>)
    ensures
        r@ == emit_spec(FrameView::Receipt(id@, kind)),
{
    let mut out = receipt_tag_bytes();
    match kind {
        ReceiptType::Delivered => out.push(68u8),
        ReceiptType::Read => out.push(82u8),
    }
    out.push(58u8);
    let text = message_id_text(id);
    append_bytes(&mut out, text.as_slice());
    assert(out@ =~= emit_spec(FrameView::Receipt(id@, kind)));
    out
}

/// Index of the first `:` at or after `start`, or the length.
fn find_colon(b: &[u8], start: usize) -> (r: usize)
    requires
        start <= b@.len(),
    ensures
        r as int == colon_from(b@, start as int),
        start <= r <= b@.len(),
{
    let mut i = start;
    while i < b.len()
        invariant
            start <= i <= b@.len(),
            colon_from(b@, start as int) == colon_from(b@, i as int),
        decreases b@.len() - i,
    {
        if b[i] == 58u8 {
            return i;
        }
        i = i + 1;
    }
    i
}

/// Parses a group invite frame.
pub fn parse_invite(data: &[u8]) -> (r: Option<(Vec<u8>, MessageId, Vec<u8>)>)
    ensures
        match r {
            Some((n, g, c)) => invite_of(data@) == Some((n@, g@, c@)),
            None => invite_of(data@) is None,
        },
{
    let tag = invite_tag_bytes();
    if !starts_with(data, &tag) {
        return None;
    }
    let p = find_colon(data, 13);
    if p >= data.len() || data.len() - p < 38 {
        return None;
    }
    if data[p + 37] != 58u8 {
        return None;
    }
    let id = match message_id_from_text(slice_subrange(data, p + 1, p + 37)) {
        Some(id) => id,
        None => return None,
    };
    let name = slice_to_vec(slice_subrange(data, 13, p));
    let key = slice_to_vec(slice_subrange(data, p + 38, data.len()));
    Some((name, id, key))
}

/// Emits an invite frame: `GROUP_INVITE:` + name + `:` + id text + `:` + key.
pub fn create_invite(name: &[u8], group_id: &MessageId, sealed_key: &[u8]) -> (r: Vec<u8>)
    ensures
        r@ == emit_spec(FrameView::Invite(name@, group_id@, sealed_key@)),
{
    let mut out = invite_tag_bytes();
    append_bytes(&mut out, name);
    out.push(58u8);
    let text = message_id_text(group_id);
    append_bytes(&mut out, text.as_slice());
    out.push(58u8);
    append_bytes(&mut out, sealed_key);
    assert(out@ =~= emit_spec(FrameView::Invite(name@, group_id@, sealed_key@)));
    out
}

/// Classifies a wire frame: receipt, then invite, else text.
pub fn classify(data: &[u8]) -> (r: Frame)
    ensures
        r@ == classify_spec(data@),
{
    match parse_receipt(data) {
        Some((id, k)) => Frame::Receipt(id, k),
        None => match parse_invite(data) {
            Some((name, group_id, sealed_key)) => Frame::Invite { name, group_id, sealed_key },
            None => Frame::Text(slice_to_vec(data)),
        },
    }
}

/// Emits a frame as bytes.
pub fn emit(f: &Frame) -> (r: Vec<u8>)
    ensures
        r@ == emit_spec(f@),
{
    match f {
        Frame::Receipt(id, k) => create_receipt(id, *k),
        Frame::Invite { name, group_id, sealed_key } => create_invite(
            name.as_slice(),
            group_id,
            sealed_key.as_slice(),
        ),
        Frame::Text(b) => {
            let mut out: Vec<u8> = Vec::new();
            append_bytes(&mut out, b.as_slice());
            assert(out@ =~= b@);
            out
        },
    }
}

} // verus!

verus! {

proof fn lemma_colon_after_name(b: Seq<u8>, start: int, end: int, i: int)
    requires
        0 <= start <= i <= end < b.len(),
        b[end] == 58,
        forall|k: int| start <= k < end ==> b[k] != 58,
    ensures
        colon_from(b, i) == end,
    decreases end - i,
{
    if i < end {
        lemma_colon_after_name(b, start, end, i + 1);
    }
}

/// Classifying an emitted frame gives the frame back.
pub proof fn lemma_classify_emit(f: FrameView)
    requires
        emittable(f),
    ensures
        classify_spec(emit_spec(f)) == f,
{
    let b = emit_spec(f);
    match f {
        FrameView::Receipt(id, k) => {
            lemma_id_text_round_trip(id);
            assert(b.subrange(0, 5) =~= receipt_tag());
            assert(b.subrange(7, 43) =~= id_text(id));
            assert(receipt_of(b) == Some((id, k)));
        },
        FrameView::Invite(n, g, c) => {
            lemma_id_text_round_trip(g);
            assert(b[0] == 71);
            assert(b.subrange(0, 5)[0] != receipt_tag()[0]);
            assert(receipt_of(b) is None);
            assert(b.subrange(0, 13) =~= invite_tag());
            let p: int = 13 + n.len() as int;
            assert forall|k: int| 13 <= k < p implies b[k] != 58 by {
                assert(b[k] == n[k - 13]);
            }
            lemma_colon_after_name(b, 13, p, 13);
            assert(b.subrange(p + 1, p + 37) =~= id_text(g));
            assert(b.subrange(13, p) =~= n);
            assert(b.subrange(p + 38, b.len() as int) =~= c);
            assert(invite_of(b) == Some((n, g, c)));
        },
        FrameView::Text(t) => {},
    }
}

} // verus!
