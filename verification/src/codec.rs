//! The binary encoding of a subscription record as it is persisted in the
//! store: the record is flattened to a sequence of 64-bit words (each
//! length-prefixed section in turn), and the words are written as
//! little-endian bytes. The encoding is opaque to callers; what matters is
//! proved here: encoding is injective, and decoding accepts exactly the
//! canonical encodings and returns the encoded record.

use vstd::prelude::*;

use crate::subscription::Subscription;
use crate::subscription::SubscriptionView;
use crate::text::push_char;

verus! {

/// The words of a title: each character's code point, widened.
pub open spec fn title_words(t: Seq<char>) -> Seq<u64> {
    t.map_values(|c: char| (c as u32) as u64)
}

/// The words of the subscriber groups, in two's complement.
pub open spec fn group_words(g: Seq<i64>) -> Seq<u64> {
    g.map_values(|x: i64| x as u64)
}

/// A record flattened to words: title length, title characters, group
/// count, groups, last update, fingerprint count, fingerprints, interval.
pub open spec fn words_of(sv: SubscriptionView) -> Seq<u64> {
    seq![sv.title.len() as u64] + title_words(sv.title) + seq![sv.groups.len() as u64]
        + group_words(sv.groups) + seq![sv.last_update as u64] + seq![
        sv.item_fingerprints.len() as u64,
    ] + sv.item_fingerprints + seq![sv.update_interval as u64]
}

/// A view whose section lengths fit the length words. Every view of a real
/// record is bounded.
pub open spec fn bounded(sv: SubscriptionView) -> bool {
    &&& sv.title.len() <= u64::MAX
    &&& sv.groups.len() <= u64::MAX
    &&& sv.item_fingerprints.len() <= u64::MAX
}

/// Words written as little-endian bytes, in order.
pub open spec fn enc_words(ws: Seq<u64>) -> Seq<u8>
    decreases ws.len(),
{
    if ws.len() == 0 {
        Seq::<u8>::empty()
    } else {
        vstd::bytes::spec_u64_to_le_bytes(ws[0]) + enc_words(ws.drop_first())
    }
}

/// The persisted encoding of a record.
pub open spec fn spec_encode(sv: SubscriptionView) -> Seq<u8> {
    enc_words(words_of(sv))
}

/// Where each field of a record sits in its word flattening.
pub proof fn lemma_words_shape(sv: SubscriptionView)
    ensures
        words_of(sv).len() == 5 + sv.title.len() + sv.groups.len() + sv.item_fingerprints.len(),
        words_of(sv)[0] == sv.title.len() as u64,
        forall|i: int|
            0 <= i < sv.title.len() ==> words_of(sv)[1 + i] == (sv.title[i] as u32) as u64,
        words_of(sv)[1 + sv.title.len() as int] == sv.groups.len() as u64,
        forall|i: int|
            0 <= i < sv.groups.len() ==> words_of(sv)[2 + sv.title.len() + i] == (
            sv.groups[i] as u64),
        words_of(sv)[2 + sv.title.len() as int + sv.groups.len() as int] == sv.last_update as u64,
        words_of(sv)[3 + sv.title.len() as int + sv.groups.len() as int] == sv.item_fingerprints.len() as u64,
        forall|i: int|
            0 <= i < sv.item_fingerprints.len() ==> words_of(sv)[4 + sv.title.len() as int
                + sv.groups.len() as int + i] == sv.item_fingerprints[i],
        words_of(sv)[4 + sv.title.len() as int + sv.groups.len() as int + sv.item_fingerprints.len() as int]
            == sv.update_interval as u64,
{
}

/// The byte encoding of a word sequence is eight bytes per word.
pub proof fn lemma_enc_words_len(ws: Seq<u64>)
    ensures
        enc_words(ws).len() == 8 * ws.len(),
    decreases ws.len(),
{
    vstd::bytes::lemma_auto_spec_u64_to_from_le_bytes();
    if ws.len() > 0 {
        lemma_enc_words_len(ws.drop_first());
    }
}

/// The bytes of the `t`-th word are the `t`-th eight-byte segment.
pub proof fn lemma_enc_words_seg(ws: Seq<u64>, t: int)
    requires
        0 <= t < ws.len(),
    ensures
        enc_words(ws).subrange(8 * t, 8 * t + 8) == vstd::bytes::spec_u64_to_le_bytes(ws[t]),
    decreases t,
{
    vstd::bytes::lemma_auto_spec_u64_to_from_le_bytes();
    lemma_enc_words_len(ws);
    lemma_enc_words_len(ws.drop_first());
    if t == 0 {
        assert(enc_words(ws).subrange(0, 8) =~= vstd::bytes::spec_u64_to_le_bytes(ws[0]));
    } else {
        lemma_enc_words_seg(ws.drop_first(), t - 1);
        assert(enc_words(ws).subrange(8 * t, 8 * t + 8) =~= enc_words(ws.drop_first()).subrange(
            8 * (t - 1),
            8 * (t - 1) + 8,
        ));
    }
}

/// Appending a word appends its eight bytes.
pub proof fn lemma_enc_words_push(ws: Seq<u64>, w: u64)
    ensures
        enc_words(ws.push(w)) == enc_words(ws) + vstd::bytes::spec_u64_to_le_bytes(w),
    decreases ws.len(),
{
    vstd::bytes::lemma_auto_spec_u64_to_from_le_bytes();
    if ws.len() == 0 {
        assert(ws.push(w)[0] == w);
        assert(ws.push(w).drop_first() =~= Seq::<u64>::empty());
        assert(enc_words(ws.push(w).drop_first()) == Seq::<u8>::empty());
        assert(enc_words(ws.push(w)) =~= enc_words(ws) + vstd::bytes::spec_u64_to_le_bytes(w));
    } else {
        assert(ws.push(w)[0] == ws[0]);
        assert(ws.push(w).drop_first() =~= ws.drop_first().push(w));
        lemma_enc_words_push(ws.drop_first(), w);
        assert(enc_words(ws.push(w)) =~= enc_words(ws) + vstd::bytes::spec_u64_to_le_bytes(w));
    }
}

proof fn lemma_i64_as_u64_injective(a: i64, b: i64)
    requires
        a as u64 == b as u64,
    ensures
        a == b,
{
    assert(a as u64 == b as u64 ==> a == b) by (bit_vector);
}

proof fn lemma_u64_i64_roundtrip(w: u64)
    ensures
        ((w as i64) as u64) == w,
{
    assert(((w as i64) as u64) == w) by (bit_vector);
}

/// Relies on `char::from_u32`: `Some` exactly on Unicode scalar values,
/// returning the character with that code point.
#[verifier::external_body]
fn char_from_u32(x: u32) -> (r: Option<char>)
    ensures
        r matches Some(c) ==> c as u32 == x,
        vstd::utf8::is_scalar(x) ==> r is Some,
{
    char::from_u32(x)
}

/// The bytes are exactly the encoding of the words, and the words of any
/// bounded record with this encoding are exactly these words.
pub open spec fn words_pin(b: Seq<u8>, ws: Seq<u64>) -> bool {
    &&& b == enc_words(ws)
    &&& forall|sv: SubscriptionView|
        bounded(sv) && b == #[trigger] spec_encode(sv) ==> ws == words_of(sv)
}

/// Encodes a record for the store.
#[verifier::rlimit(60)]
pub fn encode(s: &Subscription) -> (r: Vec<u8>)
    ensures
        r@ == spec_encode(s@),
        bounded(s@),
{
    let mut ws: Vec<u64> = Vec::new();
    let tl = s.title.as_str().unicode_len();
    ws.push(tl as u64);
    let mut j: usize = 0;
    while j < tl
        invariant
            0 <= j <= tl,
            tl == s@.title.len(),
            ws@.len() == 1 + j,
            ws@[0] == tl as u64,
            forall|t: int| 0 <= t < j ==> ws@[1 + t] == (s@.title[t] as u32) as u64,
        decreases tl - j,
    {
        let c = s.title.as_str().get_char(j);
        ws.push((c as u32) as u64);
        j = j + 1;
    }
    let gl = s.groups.len();
    ws.push(gl as u64);
    let mut j: usize = 0;
    while j < gl
        invariant
            0 <= j <= gl,
            tl == s@.title.len(),
            gl == s@.groups.len(),
            ws@.len() == 2 + tl + j,
            ws@[0] == tl as u64,
            forall|t: int| 0 <= t < tl ==> ws@[1 + t] == (s@.title[t] as u32) as u64,
            ws@[1 + tl] == gl as u64,
            forall|t: int| 0 <= t < j ==> ws@[2 + tl + t] == (s@.groups[t] as u64),
        decreases gl - j,
    {
        let g = s.groups[j];
        ws.push(#[verifier::truncate] (g as u64));
        j = j + 1;
    }
    ws.push(#[verifier::truncate] (s.last_update as u64));
    let fl = s.item_fingerprints.len();
    ws.push(fl as u64);
    let mut j: usize = 0;
    while j < fl
        invariant
            0 <= j <= fl,
            tl == s@.title.len(),
            gl == s@.groups.len(),
            fl == s@.item_fingerprints.len(),
            ws@.len() == 4 + tl + gl + j,
            ws@[0] == tl as u64,
            forall|t: int| 0 <= t < tl ==> ws@[1 + t] == (s@.title[t] as u32) as u64,
            ws@[1 + tl] == gl as u64,
            forall|t: int| 0 <= t < gl ==> ws@[2 + tl + t] == (s@.groups[t] as u64),
            ws@[2 + tl + gl] == s@.last_update as u64,
            ws@[3 + tl + gl] == fl as u64,
            forall|t: int| 0 <= t < j ==> ws@[4 + tl + gl + t] == s@.item_fingerprints[t],
        decreases fl - j,
    {
        ws.push(s.item_fingerprints[j]);
        j = j + 1;
    }
    ws.push(#[verifier::truncate] (s.update_interval as u64));
    proof {
        lemma_words_shape(s@);
        assert(ws@ =~= words_of(s@));
    }
    let mut out: Vec<u8> = Vec::new();
    let mut k: usize = 0;
    while k < ws.len()
        invariant
            0 <= k <= ws@.len(),
            ws@ == words_of(s@),
            out@ == enc_words(ws@.subrange(0, k as int)),
        decreases ws@.len() - k,
    {
        let mut chunk = vstd::bytes::u64_to_le_bytes(ws[k]);
        out.append(&mut chunk);
        proof {
            lemma_enc_words_push(ws@.subrange(0, k as int), ws@[k as int]);
            assert(ws@.subrange(0, k + 1) =~= ws@.subrange(0, k as int).push(ws@[k as int]));
        }
        k = k + 1;
    }
    proof {
        assert(ws@.subrange(0, ws@.len() as int) =~= ws@);
    }
    out
}

/// Decodes a stored record. Returns `Some` exactly on the canonical
/// encoding of a bounded record, and then returns that record.
pub fn decode(b: &Vec<u8>) -> (r: Option<Subscription>)
    ensures
        r matches Some(s) ==> b@ == spec_encode(s@) && bounded(s@),
        forall|sv: SubscriptionView| bounded(sv) && b@ == #[trigger] spec_encode(sv) ==> r is Some,
{
    if b.len() % 8 != 0 {
        proof {
            assert forall|sv: SubscriptionView|
                !(bounded(sv) && b@ == #[trigger] spec_encode(sv)) by {
                if bounded(sv) && b@ == spec_encode(sv) {
                    lemma_enc_words_len(words_of(sv));
                }
            }
        }
        return None;
    }
    let nw = b.len() / 8;
    let mut ws: Vec<u64> = Vec::new();
    let mut j: usize = 0;
    while j < nw
        invariant
            0 <= j <= nw,
            8 * nw == b@.len(),
            b@.len() <= usize::MAX,
            ws@.len() == j,
            forall|t: int|
                0 <= t < j ==> ws@[t] == vstd::bytes::spec_u64_from_le_bytes(
                    b@.subrange(8 * t, 8 * t + 8),
                ),
        decreases nw - j,
    {
        let chunk = vstd::slice::slice_subrange(b.as_slice(), 8 * j, 8 * j + 8);
        let w = vstd::bytes::u64_from_le_bytes(chunk);
        ws.push(w);
        j = j + 1;
    }
    proof {
        lemma_enc_words_len(ws@);
        assert forall|t: int|
            #![trigger b@.subrange(8 * t, 8 * t + 8)]
            0 <= t < nw implies enc_words(ws@).subrange(8 * t, 8 * t + 8) == b@.subrange(
            8 * t,
            8 * t + 8,
        ) by {
            lemma_enc_words_seg(ws@, t);
            vstd::bytes::lemma_auto_spec_u64_to_from_le_bytes();
            assert(b@.subrange(8 * t, 8 * t + 8).len() == 8);
        }
        assert forall|x: int| 0 <= x < b@.len() implies b@[x] == enc_words(ws@)[x] by {
            let t = x / 8;
            vstd::arithmetic::div_mod::lemma_fundamental_div_mod(x, 8);
            vstd::arithmetic::div_mod::lemma_mod_bound(x, 8);
            assert(8 * t <= x < 8 * t + 8);
            assert(0 <= t < nw);
            assert(b@[x] == b@.subrange(8 * t, 8 * t + 8)[x - 8 * t]);
            assert(enc_words(ws@)[x] == enc_words(ws@).subrange(8 * t, 8 * t + 8)[x - 8 * t]);
        }
        assert(b@ =~= enc_words(ws@));
        assert forall|sv: SubscriptionView|
            bounded(sv) && b@ == #[trigger] spec_encode(sv) implies ws@ == words_of(sv) by {
            lemma_enc_words_len(words_of(sv));
            assert forall|t: int| 0 <= t < nw implies ws@[t] == words_of(sv)[t] by {
                lemma_enc_words_seg(words_of(sv), t);
                vstd::bytes::lemma_auto_spec_u64_to_from_le_bytes();
            }
            assert(ws@ =~= words_of(sv));
        }
        assert(words_pin(b@, ws@));
    }
    decode_words(b, ws)
}

/// Parses the word flattening back into a record.
fn decode_words(b: &Vec<u8>, ws: Vec<u64>) -> (r: Option<Subscription>)
    requires
        words_pin(b@, ws@),
    ensures
        r matches Some(s) ==> b@ == spec_encode(s@) && bounded(s@),
        forall|sv: SubscriptionView| bounded(sv) && b@ == #[trigger] spec_encode(sv) ==> r is Some,
{
    let nw = ws.len();
    if nw < 5 {
        proof {
            refute_preimage(b@, ws@);
        }
        return None;
    }
    let tlw = ws[0];
    if tlw > (nw - 5) as u64 {
        proof {
            refute_preimage(b@, ws@);
        }
        return None;
    }
    let tl = tlw as usize;
    let mut title = String::new();
    let mut j: usize = 0;
    while j < tl
        invariant
            0 <= j <= tl,
            5 + tl <= nw,
            nw == ws@.len(),
            words_pin(b@, ws@),
            ws@[0] == tl as u64,
            title@.len() == j,
            forall|t: int| 0 <= t < j ==> (title@[t] as u32) as u64 == ws@[1 + t],
        decreases tl - j,
    {
        let w = ws[1 + j];
        if w > 0xffff_ffffu64 {
            proof {
                assert forall|sv: SubscriptionView|
                    !(bounded(sv) && b@ == #[trigger] spec_encode(sv)) by {
                    if bounded(sv) && b@ == spec_encode(sv) {
                        lemma_words_shape(sv);
                        assert(ws@ == words_of(sv));
                        assert(j < sv.title.len());
                        assert(w == (sv.title[j as int] as u32) as u64);
                    }
                }
            }
            return None;
        }
        match char_from_u32(w as u32) {
            Some(c) => {
                push_char(&mut title, c);
            },
            None => {
                proof {
                    assert forall|sv: SubscriptionView|
                        !(bounded(sv) && b@ == #[trigger] spec_encode(sv)) by {
                        if bounded(sv) && b@ == spec_encode(sv) {
                            lemma_words_shape(sv);
                            assert(ws@ == words_of(sv));
                            assert(j < sv.title.len());
                            assert(w == (sv.title[j as int] as u32) as u64);
                            vstd::utf8::char_is_scalar(sv.title[j as int]);
                            assert(vstd::utf8::is_scalar(w as u32));
                        }
                    }
                }
                return None;
            },
        }
        j = j + 1;
    }
    let glw = ws[1 + tl];
    if glw > (nw - 5 - tl) as u64 {
        proof {
            refute_preimage(b@, ws@);
        }
        return None;
    }
    let gl = glw as usize;
    let mut groups: Vec<i64> = Vec::new();
    let mut j: usize = 0;
    while j < gl
        invariant
            0 <= j <= gl,
            5 + tl + gl <= nw,
            nw == ws@.len(),
            words_pin(b@, ws@),
            ws@[0] == tl as u64,
            ws@[1 + tl] == gl as u64,
            title@.len() == tl,
            forall|t: int| 0 <= t < tl ==> (title@[t] as u32) as u64 == ws@[1 + t],
            groups@.len() == j,
            forall|t: int| 0 <= t < j ==> (groups@[t] as u64) == ws@[2 + tl + t],
        decreases gl - j,
    {
        let w = ws[2 + tl + j];
        let g = #[verifier::truncate] (w as i64);
        proof {
            lemma_u64_i64_roundtrip(w);
        }
        groups.push(g);
        j = j + 1;
    }
    let lu_w = ws[2 + tl + gl];
    let last_update = #[verifier::truncate] (lu_w as i64);
    let flw = ws[3 + tl + gl];
    if flw > (nw - 5 - tl - gl) as u64 {
        proof {
            refute_preimage(b@, ws@);
        }
        return None;
    }
    let fl = flw as usize;
    let mut fps: Vec<u64> = Vec::new();
    let mut j: usize = 0;
    while j < fl
        invariant
            0 <= j <= fl,
            5 + tl + gl + fl <= nw,
            nw == ws@.len(),
            words_pin(b@, ws@),
            ws@[0] == tl as u64,
            ws@[1 + tl] == gl as u64,
            title@.len() == tl,
            forall|t: int| 0 <= t < tl ==> (title@[t] as u32) as u64 == ws@[1 + t],
            groups@.len() == gl,
            forall|t: int| 0 <= t < gl ==> (groups@[t] as u64) == ws@[2 + tl + t],
            fps@.len() == j,
            forall|t: int| 0 <= t < j ==> fps@[t] == ws@[4 + tl + gl + t],
        decreases fl - j,
    {
        fps.push(ws[4 + tl + gl + j]);
        j = j + 1;
    }
    let iv_w = ws[4 + tl + gl + fl];
    let update_interval = #[verifier::truncate] (iv_w as i64);
    if 5 + tl + gl + fl != nw {
        proof {
            refute_preimage(b@, ws@);
        }
        return None;
    }
    let s = Subscription { title, groups, last_update, item_fingerprints: fps, update_interval };
    proof {
        lemma_u64_i64_roundtrip(lu_w);
        lemma_u64_i64_roundtrip(iv_w);
        lemma_words_shape(s@);
        assert(words_of(s@).len() == ws@.len());
        assert(words_of(s@) =~= ws@);
        assert(b@ == spec_encode(s@));
    }
    Some(s)
}

/// At a parse failure the words fit no bounded record, so the bytes fit
/// none either.
proof fn refute_preimage(b: Seq<u8>, ws: Seq<u64>)
    requires
        words_pin(b, ws),
    ensures
        forall|sv: SubscriptionView|
            bounded(sv) && b == #[trigger] spec_encode(sv) ==> ws == words_of(sv) && (
            words_of(sv).len() == 5 + sv.title.len() + sv.groups.len()
                + sv.item_fingerprints.len()) && words_of(sv)[0] == sv.title.len() as u64 && (
            words_of(sv)[1 + sv.title.len() as int] == sv.groups.len() as u64) && (words_of(sv)[3
                + sv.title.len() as int + sv.groups.len() as int] == sv.item_fingerprints.len() as u64),
{
    assert forall|sv: SubscriptionView|
        bounded(sv) && b == #[trigger] spec_encode(sv) implies ws == words_of(sv) && (words_of(
        sv,
    ).len() == 5 + sv.title.len() + sv.groups.len() + sv.item_fingerprints.len()) && words_of(
        sv,
    )[0] == sv.title.len() as u64 && (words_of(sv)[1 + sv.title.len() as int] == sv.groups.len() as u64)
        && (words_of(sv)[3 + sv.title.len() as int + sv.groups.len() as int]
        == sv.item_fingerprints.len() as u64) by {
        lemma_words_shape(sv);
    }
}

/// Encoding is injective on bounded records: equal encodings mean equal
/// records.
pub proof fn lemma_encode_injective(a: SubscriptionView, c: SubscriptionView)
    requires
        bounded(a),
        bounded(c),
        spec_encode(a) == spec_encode(c),
    ensures
        a == c,
{
    lemma_words_shape(a);
    lemma_words_shape(c);
    lemma_enc_words_len(words_of(a));
    lemma_enc_words_len(words_of(c));
    assert forall|t: int| 0 <= t < words_of(a).len() implies words_of(a)[t] == words_of(c)[t] by {
        lemma_enc_words_seg(words_of(a), t);
        lemma_enc_words_seg(words_of(c), t);
        vstd::bytes::lemma_auto_spec_u64_to_from_le_bytes();
    }
    assert(words_of(a) =~= words_of(c));
    let tl = a.title.len();
    let gl = a.groups.len();
    let fl = a.item_fingerprints.len();
    assert(tl == c.title.len() && gl == c.groups.len() && fl == c.item_fingerprints.len());
    assert forall|i: int| 0 <= i < tl implies a.title[i] == c.title[i] by {
        assert((a.title[i] as u32) as u64 == (c.title[i] as u32) as u64);
        vstd::utf8::char_u32_cast(a.title[i], a.title[i] as u32);
        vstd::utf8::char_u32_cast(c.title[i], c.title[i] as u32);
    }
    assert(a.title =~= c.title);
    assert forall|i: int| 0 <= i < gl implies a.groups[i] == c.groups[i] by {
        lemma_i64_as_u64_injective(a.groups[i], c.groups[i]);
    }
    assert(a.groups =~= c.groups);
    assert(a.item_fingerprints =~= c.item_fingerprints);
    lemma_i64_as_u64_injective(a.last_update, c.last_update);
    lemma_i64_as_u64_injective(a.update_interval, c.update_interval);
    assert(a =~= c);
}

} // verus!
