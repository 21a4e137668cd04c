//! The binary value codec.
//!
//! The wire format: a first byte `1` marks a list and `2` marks a map;
//! any other leading byte means a scalar carried as plain text. Integers,
//! floats and strings all travel on that one text lane — a decoder first
//! tries the signed 64-bit integer grammar, then the float grammar, and
//! otherwise keeps the text as a string, so an integer and a string
//! spelling the same digits are not distinguishable after a round trip.
//! List elements and map entries are framed as an 8-byte little-endian
//! length followed by the payload; a map entry frames the key text and
//! then the value. Decoding a sequence of frames stops at the first spot
//! where no full frame can be extracted. Empty input decodes to the empty
//! string. Bytes that fit no lane at all — not a marker, not valid UTF-8 —
//! are kept verbatim as an opaque value for the embedding environment's
//! fallback codec.

use vstd::bytes::*;
use vstd::prelude::*;
use vstd::utf8::*;

use crate::float_text::is_float;
use crate::float_text::is_float_text;
use crate::float_text::lemma_float_text_bytes;
use crate::num::i64_to_dec;
use crate::num::int_dec;
use crate::num::int_text_val;
use crate::num::is_int_text;
use crate::num::lemma_int_text_bytes;
use crate::num::lemma_int_text_round_trip;
use crate::num::parse_i64;

verus! {

/// A dynamically typed value: the closed model the codec round-trips.
///
/// A float is carried as its decimal text; an opaque value is carried as
/// the bytes the embedding environment's fallback codec produced for it.
#[derive(Debug, PartialEq)]
pub enum Value {
    /// A signed 64-bit integer.
    Int(i64),
    /// A float, held as its decimal text.
    Float(String),
    /// A UTF-8 string.
    Str(String),
    /// An ordered list of values.
    List(Vec<Value>),
    /// A string-keyed map; entry order is not significant.
    Dict(Vec<(String, Value)>),
    /// A value outside the structural model, already passed through the
    /// fallback byte codec.
    Opaque(Vec<u8>),
}

/// The mathematical model of a [`Value`]: all text as its UTF-8 bytes.
#[verifier::ext_equal]
pub enum Val {
    /// A signed 64-bit integer.
    Int(int),
    /// A float's decimal text bytes.
    Float(Seq<u8>),
    /// A string's UTF-8 bytes.
    Str(Seq<u8>),
    /// A list of models.
    List(Seq<Val>),
    /// Map entries in order: key text bytes and value model.
    Dict(Seq<(Seq<u8>, Val)>),
    /// Fallback-codec bytes.
    Opaque(Seq<u8>),
}

/// The model of a value.
pub open spec fn view_of(v: Value) -> Val
    decreases v,
{
    match v {
        Value::Int(i) => Val::Int(i as int),
        Value::Float(t) => Val::Float(encode_utf8(t@)),
        Value::Str(s) => Val::Str(encode_utf8(s@)),
        Value::List(items) => Val::List(views_of_list(items@)),
        Value::Dict(entries) => Val::Dict(views_of_map(entries@)),
        Value::Opaque(b) => Val::Opaque(b@),
    }
}

/// The models of a sequence of values.
pub open spec fn views_of_list(s: Seq<Value>) -> Seq<Val>
    decreases s,
{
    if s.len() == 0 {
        Seq::empty()
    } else {
        seq![view_of(s[0])] + views_of_list(s.drop_first())
    }
}

/// The models of a sequence of map entries.
pub open spec fn views_of_map(s: Seq<(String, Value)>) -> Seq<(Seq<u8>, Val)>
    decreases s,
{
    if s.len() == 0 {
        Seq::empty()
    } else {
        seq![(encode_utf8(s[0].0@), view_of(s[0].1))] + views_of_map(s.drop_first())
    }
}

impl View for Value {
    type V = Val;

    open spec fn view(&self) -> Val {
        view_of(*self)
    }
}

/// An 8-byte little-endian length, then the payload.
pub open spec fn frame(p: Seq<u8>) -> Seq<u8> {
    spec_u64_to_le_bytes(p.len() as u64) + p
}

/// The encoding of a model value.
pub open spec fn encode_spec(m: Val) -> Seq<u8>
    decreases m,
{
    match m {
        Val::Int(i) => int_dec(i),
        Val::Float(t) => t,
        Val::Str(b) => b,
        Val::List(items) => seq![1u8] + encode_items(items),
        Val::Dict(entries) => seq![2u8] + encode_entries(entries),
        Val::Opaque(b) => b,
    }
}

/// The concatenated frames of a list's elements.
pub open spec fn encode_items(items: Seq<Val>) -> Seq<u8>
    decreases items,
{
    if items.len() == 0 {
        Seq::empty()
    } else {
        frame(encode_spec(items[0])) + encode_items(items.drop_first())
    }
}

/// The concatenated key and value frames of a map's entries.
pub open spec fn encode_entries(entries: Seq<(Seq<u8>, Val)>) -> Seq<u8>
    decreases entries,
{
    if entries.len() == 0 {
        Seq::empty()
    } else {
        frame(entries[0].0) + frame(encode_spec(entries[0].1)) + encode_entries(
            entries.drop_first(),
        )
    }
}

/// Splits off one frame: the payload and the rest, or `None` when no full
/// frame is left.
pub open spec fn take_frame(r: Seq<u8>) -> Option<(Seq<u8>, Seq<u8>)> {
    if r.len() >= 8 {
        let n = spec_u64_from_le_bytes(r.subrange(0, 8)) as int;
        if 8 + n <= r.len() {
            Some((r.subrange(8, 8 + n), r.subrange(8 + n, r.len() as int)))
        } else {
            None
        }
    } else {
        None
    }
}

/// The decoding of a byte string.
pub open spec fn decode_spec(b: Seq<u8>) -> Val
    decreases b.len(),
{
    if b.len() > 0 && b[0] == 1 {
        Val::List(decode_items(b.drop_first()))
    } else if b.len() > 0 && b[0] == 2 {
        Val::Dict(decode_entries(b.drop_first()))
    } else if is_int_text(b) {
        Val::Int(int_text_val(b))
    } else if is_float_text(b) {
        Val::Float(b)
    } else if valid_utf8(b) {
        Val::Str(b)
    } else {
        Val::Opaque(b)
    }
}

/// Decodes list frames until no full frame is left.
pub open spec fn decode_items(r: Seq<u8>) -> Seq<Val>
    decreases r.len(),
{
    match take_frame(r) {
        Some(pr) => seq![decode_spec(pr.0)] + decode_items(pr.1),
        None => Seq::empty(),
    }
}

/// Decodes key and value frame pairs until no full pair is left or a key
/// is not UTF-8 text.
pub open spec fn decode_entries(r: Seq<u8>) -> Seq<(Seq<u8>, Val)>
    decreases r.len(),
{
    match take_frame(r) {
        Some(kf) => match take_frame(kf.1) {
            Some(vf) => if valid_utf8(kf.0) {
                seq![(kf.0, decode_spec(vf.0))] + decode_entries(vf.1)
            } else {
                Seq::empty()
            },
            None => Seq::empty(),
        },
        None => Seq::empty(),
    }
}

/// The values whose encoding decodes back to them exactly.
///
/// Integers always survive; a float must not spell an integer; a string
/// must not spell a number, start with a wire marker, or fail UTF-8; an
/// opaque value must not look structural at all. Frame lengths must fit
/// the 8-byte length field.
pub open spec fn round_trippable(m: Val) -> bool
    decreases m,
{
    match m {
        Val::Int(i) => -0x8000_0000_0000_0000 <= i < 0x8000_0000_0000_0000,
        Val::Float(t) => is_float_text(t) && !is_int_text(t),
        Val::Str(b) => {
            &&& valid_utf8(b)
            &&& !is_int_text(b)
            &&& !is_float_text(b)
            &&& (b.len() > 0 ==> b[0] != 1 && b[0] != 2)
        },
        Val::List(items) => forall|i: int|
            0 <= i < items.len() ==> (round_trippable(#[trigger] items[i]) && encode_spec(
                items[i],
            ).len() < 0x1_0000_0000_0000_0000),
        Val::Dict(entries) => forall|i: int|
            0 <= i < entries.len() ==> {
                &&& valid_utf8((#[trigger] entries[i]).0)
                &&& entries[i].0.len() < 0x1_0000_0000_0000_0000
                &&& round_trippable(entries[i].1)
                &&& encode_spec(entries[i].1).len() < 0x1_0000_0000_0000_0000
            },
        Val::Opaque(b) => !valid_utf8(b) && b.len() > 0 && b[0] != 1 && b[0] != 2,
    }
}

/// ASCII bytes are valid UTF-8.
proof fn lemma_ascii_valid_utf8(s: Seq<u8>)
    requires
        forall|i: int| 0 <= i < s.len() ==> #[trigger] s[i] < 0x80,
    ensures
        valid_utf8(s),
{
    assert(s.subrange(0, 0) =~= Seq::<u8>::empty());
    assert(valid_utf8(Seq::<u8>::empty()));
    assert(partial_valid_utf8(s, 0));
    assert(forall|i: int| 0 <= i < s.len() ==> is_leading_byte_width_1(#[trigger] s[i]));
    partial_valid_utf8_extend_ascii_block(s, 0, s.len() as int);
    assert(s.subrange(0, s.len() as int) =~= s);
}

/// Splitting the concatenation of a frame and a rest gives back the
/// payload and the rest.
proof fn lemma_take_frame(p: Seq<u8>, rest: Seq<u8>)
    requires
        p.len() < 0x1_0000_0000_0000_0000,
    ensures
        take_frame(frame(p) + rest) == Some((p, rest)),
{
    lemma_auto_spec_u64_to_from_le_bytes();
    let lb = spec_u64_to_le_bytes(p.len() as u64);
    assert(lb.len() == 8);
    let whole = frame(p) + rest;
    assert(whole.subrange(0, 8) =~= lb);
    assert(spec_u64_from_le_bytes(lb) == p.len() as u64);
    assert(whole.subrange(8, 8 + p.len() as int) =~= p);
    assert(whole.subrange(8 + p.len() as int, whole.len() as int) =~= rest);
}

/// Round trip for list frames.
proof fn lemma_round_trip_items(items: Seq<Val>)
    requires
        forall|i: int|
            0 <= i < items.len() ==> (round_trippable(#[trigger] items[i]) && encode_spec(
                items[i],
            ).len() < 0x1_0000_0000_0000_0000),
    ensures
        decode_items(encode_items(items)) == items,
    decreases items,
{
    if items.len() == 0 {
        assert(take_frame(Seq::empty()) is None);
        assert(decode_items(encode_items(items)) =~= items);
    } else {
        let head = items[0];
        let tail = items.drop_first();
        lemma_take_frame(encode_spec(head), encode_items(tail));
        lemma_round_trip(head);
        assert(forall|i: int|
            0 <= i < tail.len() ==> (round_trippable(#[trigger] tail[i]) && encode_spec(
                tail[i],
            ).len() < 0x1_0000_0000_0000_0000)) by {
            assert(forall|i: int| 0 <= i < tail.len() ==> #[trigger] tail[i] == items[i + 1]);
        }
        lemma_round_trip_items(tail);
        assert(decode_items(encode_items(items)) =~= items);
    }
}

/// Round trip for map entry frames.
proof fn lemma_round_trip_entries(entries: Seq<(Seq<u8>, Val)>)
    requires
        forall|i: int|
            0 <= i < entries.len() ==> {
                &&& valid_utf8((#[trigger] entries[i]).0)
                &&& entries[i].0.len() < 0x1_0000_0000_0000_0000
                &&& round_trippable(entries[i].1)
                &&& encode_spec(entries[i].1).len() < 0x1_0000_0000_0000_0000
            },
    ensures
        decode_entries(encode_entries(entries)) == entries,
    decreases entries,
{
    if entries.len() == 0 {
        assert(take_frame(Seq::empty()) is None);
        assert(decode_entries(encode_entries(entries)) =~= entries);
    } else {
        let k = entries[0].0;
        let v = entries[0].1;
        let tail = entries.drop_first();
        let ev = encode_spec(v);
        let enc_tail = encode_entries(tail);
        assert(encode_entries(entries) == frame(k) + frame(ev) + enc_tail);
        assert(frame(k) + frame(ev) + enc_tail =~= frame(k) + (frame(ev) + enc_tail));
        lemma_take_frame(k, frame(ev) + enc_tail);
        lemma_take_frame(ev, enc_tail);
        lemma_round_trip(v);
        assert(forall|i: int|
            0 <= i < tail.len() ==> {
                &&& valid_utf8((#[trigger] tail[i]).0)
                &&& tail[i].0.len() < 0x1_0000_0000_0000_0000
                &&& round_trippable(tail[i].1)
                &&& encode_spec(tail[i].1).len() < 0x1_0000_0000_0000_0000
            }) by {
            assert(forall|i: int| 0 <= i < tail.len() ==> #[trigger] tail[i] == entries[i + 1]);
        }
        lemma_round_trip_entries(tail);
        assert(decode_entries(encode_entries(entries)) =~= entries);
    }
}

/// Appending one value to a list appends its model to the list's models.
proof fn lemma_views_of_list_push(s: Seq<Value>, x: Value)
    ensures
        views_of_list(s.push(x)) == views_of_list(s).push(view_of(x)),
    decreases s,
{
    if s.len() == 0 {
        assert(s.push(x)[0] == x);
        assert(s.push(x).drop_first() =~= Seq::<Value>::empty());
        assert(views_of_list(Seq::<Value>::empty()) == Seq::<Val>::empty());
        assert(views_of_list(s.push(x)) =~= views_of_list(s).push(view_of(x)));
    } else {
        assert(s.push(x)[0] == s[0]);
        assert(s.push(x).drop_first() =~= s.drop_first().push(x));
        lemma_views_of_list_push(s.drop_first(), x);
        assert(views_of_list(s.push(x)) == seq![view_of(s[0])] + views_of_list(
            s.drop_first(),
        ).push(view_of(x)));
        assert(views_of_list(s.push(x)) =~= views_of_list(s).push(view_of(x)));
    }
}

/// Appending one entry to a map appends its model to the map's models.
proof fn lemma_views_of_map_push(s: Seq<(String, Value)>, x: (String, Value))
    ensures
        views_of_map(s.push(x)) == views_of_map(s).push((encode_utf8(x.0@), view_of(x.1))),
    decreases s,
{
    if s.len() == 0 {
        assert(s.push(x)[0] == x);
        assert(s.push(x).drop_first() =~= Seq::<(String, Value)>::empty());
        assert(views_of_map(Seq::<(String, Value)>::empty()) == Seq::<(Seq<u8>, Val)>::empty());
        assert(views_of_map(s.push(x)) =~= views_of_map(s).push(
            (encode_utf8(x.0@), view_of(x.1)),
        ));
    } else {
        assert(s.push(x)[0] == s[0]);
        assert(s.push(x).drop_first() =~= s.drop_first().push(x));
        lemma_views_of_map_push(s.drop_first(), x);
        assert(views_of_map(s.push(x)) == seq![(encode_utf8(s[0].0@), view_of(s[0].1))]
            + views_of_map(s.drop_first()).push((encode_utf8(x.0@), view_of(x.1))));
        assert(views_of_map(s.push(x)) =~= views_of_map(s).push(
            (encode_utf8(x.0@), view_of(x.1)),
        ));
    }
}

/// Appending one element appends its frame to the encoding.
proof fn lemma_encode_items_push(s: Seq<Val>, m: Val)
    ensures
        encode_items(s.push(m)) == encode_items(s) + frame(encode_spec(m)),
    decreases s,
{
    if s.len() == 0 {
        assert(s.push(m)[0] == m);
        assert(s.push(m).drop_first() =~= Seq::<Val>::empty());
        assert(encode_items(Seq::<Val>::empty()) == Seq::<u8>::empty());
        assert(encode_items(s.push(m)) =~= encode_items(s) + frame(encode_spec(m)));
    } else {
        assert(s.push(m)[0] == s[0]);
        assert(s.push(m).drop_first() =~= s.drop_first().push(m));
        lemma_encode_items_push(s.drop_first(), m);
        assert(encode_items(s.push(m)) == frame(encode_spec(s[0])) + (encode_items(
            s.drop_first(),
        ) + frame(encode_spec(m))));
        assert(encode_items(s.push(m)) =~= encode_items(s) + frame(encode_spec(m)));
    }
}

/// Appending one entry appends its key and value frames to the encoding.
proof fn lemma_encode_entries_push(s: Seq<(Seq<u8>, Val)>, e: (Seq<u8>, Val))
    ensures
        encode_entries(s.push(e)) == encode_entries(s) + frame(e.0) + frame(encode_spec(e.1)),
    decreases s,
{
    if s.len() == 0 {
        assert(s.push(e)[0] == e);
        assert(s.push(e).drop_first() =~= Seq::<(Seq<u8>, Val)>::empty());
        assert(encode_entries(Seq::<(Seq<u8>, Val)>::empty()) == Seq::<u8>::empty());
        assert(encode_entries(s.push(e)) =~= encode_entries(s) + frame(e.0) + frame(
            encode_spec(e.1),
        ));
    } else {
        assert(s.push(e)[0] == s[0]);
        assert(s.push(e).drop_first() =~= s.drop_first().push(e));
        lemma_encode_entries_push(s.drop_first(), e);
        assert(encode_entries(s.push(e)) == frame(s[0].0) + frame(encode_spec(s[0].1)) + (
        encode_entries(s.drop_first()) + frame(e.0) + frame(encode_spec(e.1))));
        assert(encode_entries(s.push(e)) =~= encode_entries(s) + frame(e.0) + frame(
            encode_spec(e.1),
        ));
    }
}

/// Round trip: decoding the encoding of any round-trippable model value
/// gives that value back exactly. Digit strings are the documented
/// exception: they come back as integers, and `round_trippable` excludes
/// them.
pub proof fn lemma_round_trip(m: Val)
    requires
        round_trippable(m),
    ensures
        decode_spec(encode_spec(m)) == m,
    decreases m,
{
    match m {
        Val::Int(i) => {
            lemma_int_text_round_trip(i);
            lemma_int_text_bytes(int_dec(i));
        },
        Val::Float(t) => {
            lemma_float_text_bytes(t);
        },
        Val::Str(b) => {
            if is_int_text(b) {
            }
        },
        Val::List(items) => {
            let b = encode_spec(m);
            assert(b == seq![1u8] + encode_items(items));
            assert(b[0] == 1);
            assert(b.drop_first() =~= encode_items(items));
            lemma_round_trip_items(items);
        },
        Val::Dict(entries) => {
            let b = encode_spec(m);
            assert(b == seq![2u8] + encode_entries(entries));
            assert(b[0] == 2);
            assert(b.drop_first() =~= encode_entries(entries));
            lemma_round_trip_entries(entries);
        },
        Val::Opaque(b) => {
            if is_int_text(b) {
                lemma_int_text_bytes(b);
                lemma_ascii_valid_utf8(b);
            }
            if is_float_text(b) {
                lemma_float_text_bytes(b);
                lemma_ascii_valid_utf8(b);
            }
        },
    }
}

/// Relies on `String::from_utf8`: it succeeds exactly on valid UTF-8
/// input, and the returned string holds exactly the given bytes.
#[verifier::external_body]
fn bytes_to_string(s: &[u8]) -> (r: Option<String>)
    ensures
        r is Some <==> valid_utf8(s@),
        r matches Some(t) ==> encode_utf8(t@) == s@,
{
    String::from_utf8(s.to_vec()).ok()
}

/// Appends one frame: the payload's length in 8 little-endian bytes, then
/// the payload.
fn push_frame(out: &mut Vec<u8>, payload: Vec<u8>)
    ensures
        final(out)@ == old(out)@ + frame(payload@),
{
    let ghost pv = payload@;
    let mut len_bytes = u64_to_le_bytes(payload.len() as u64);
    out.append(&mut len_bytes);
    let mut p = payload;
    out.append(&mut p);
    proof {
        assert(out@ =~= old(out)@ + frame(pv));
    }
}

/// Encodes a value to its wire bytes.
pub fn encode(v: &Value) -> (r: Vec<u8>)
    ensures
        r@ == encode_spec(v@),
    decreases *v,
{
    match v {
        Value::Int(i) => i64_to_dec(*i),
        Value::Float(t) => t.as_str().as_bytes_vec(),
        Value::Str(s) => s.as_str().as_bytes_vec(),
        Value::List(items) => {
            let mut out: Vec<u8> = Vec::new();
            out.push(1);
            proof {
                assert(views_of_list(items@.subrange(0, 0)) =~= Seq::<Val>::empty());
                assert(out@ =~= seq![1u8] + encode_items(views_of_list(items@.subrange(0, 0))));
            }
            let mut j: usize = 0;
            while j < items.len()
                invariant
                    0 <= j <= items@.len(),
                    *v == Value::List(*items),
                    out@ == seq![1u8] + encode_items(views_of_list(items@.subrange(0, j as int))),
                decreases items@.len() - j,
            {
                proof {
                    assert(*v == Value::List(*items));
                    assert(decreases_to!(*v => (*v)->List_0));
                    assert((*v)->List_0 == *items);
                    assert(decreases_to!(*items => items@));
                    assert(decreases_to!(items@ => items@[j as int]));
                }
                let item_bytes = encode(&items[j]);
                push_frame(&mut out, item_bytes);
                proof {
                    assert(items@.subrange(0, j + 1) =~= items@.subrange(0, j as int).push(
                        items@[j as int],
                    ));
                    lemma_views_of_list_push(items@.subrange(0, j as int), items@[j as int]);
                    lemma_encode_items_push(
                        views_of_list(items@.subrange(0, j as int)),
                        view_of(items@[j as int]),
                    );
                    assert(out@ =~= seq![1u8] + encode_items(
                        views_of_list(items@.subrange(0, j + 1)),
                    ));
                }
                j = j + 1;
            }
            proof {
                assert(items@.subrange(0, items@.len() as int) =~= items@);
            }
            out
        },
        Value::Dict(entries) => {
            let mut out: Vec<u8> = Vec::new();
            out.push(2);
            proof {
                assert(views_of_map(entries@.subrange(0, 0)) =~= Seq::<(Seq<u8>, Val)>::empty());
                assert(out@ =~= seq![2u8] + encode_entries(
                    views_of_map(entries@.subrange(0, 0)),
                ));
            }
            let mut j: usize = 0;
            while j < entries.len()
                invariant
                    0 <= j <= entries@.len(),
                    *v == Value::Dict(*entries),
                    out@ == seq![2u8] + encode_entries(
                        views_of_map(entries@.subrange(0, j as int)),
                    ),
                decreases entries@.len() - j,
            {
                let key_bytes = entries[j].0.as_str().as_bytes_vec();
                push_frame(&mut out, key_bytes);
                proof {
                    assert(*v == Value::Dict(*entries));
                    assert(decreases_to!(*v => (*v)->Dict_0));
                    assert((*v)->Dict_0 == *entries);
                    assert(decreases_to!(*entries => entries@));
                    assert(decreases_to!(entries@ => entries@[j as int]));
                    assert(decreases_to!(entries@[j as int] => entries@[j as int].1));
                }
                let val_bytes = encode(&entries[j].1);
                push_frame(&mut out, val_bytes);
                proof {
                    assert(entries@.subrange(0, j + 1) =~= entries@.subrange(0, j as int).push(
                        entries@[j as int],
                    ));
                    lemma_views_of_map_push(entries@.subrange(0, j as int), entries@[j as int]);
                    lemma_encode_entries_push(
                        views_of_map(entries@.subrange(0, j as int)),
                        (encode_utf8(entries@[j as int].0@), view_of(entries@[j as int].1)),
                    );
                    assert(out@ =~= seq![2u8] + encode_entries(
                        views_of_map(entries@.subrange(0, j + 1)),
                    ));
                }
                j = j + 1;
            }
            proof {
                assert(entries@.subrange(0, entries@.len() as int) =~= entries@);
            }
            out
        },
        Value::Opaque(b) => vstd::slice::slice_to_vec(b.as_slice()),
    }
}

/// Reads one frame header at `cursor`: the payload's start and end, or
/// `None` when no full frame is left.
fn next_frame(s: &[u8], cursor: usize) -> (r: Option<(usize, usize)>)
    requires
        cursor <= s@.len(),
    ensures
        match r {
            Some(se) => {
                &&& cursor + 8 == se.0
                &&& se.0 <= se.1 <= s@.len()
                &&& take_frame(s@.subrange(cursor as int, s@.len() as int)) == Some(
                    (
                        s@.subrange(se.0 as int, se.1 as int),
                        s@.subrange(se.1 as int, s@.len() as int),
                    ),
                )
            },
            None => take_frame(s@.subrange(cursor as int, s@.len() as int)) is None,
        },
{
    let n = s.len();
    let ghost sub = s@.subrange(cursor as int, n as int);
    if n - cursor < 8 {
        return None;
    }
    let len_bytes = vstd::slice::slice_subrange(s, cursor, cursor + 8);
    let frame_len: u64 = u64_from_le_bytes(len_bytes);
    proof {
        assert(sub.subrange(0, 8) =~= len_bytes@);
    }
    let avail: usize = n - cursor - 8;
    if frame_len > avail as u64 {
        return None;
    }
    let fl: usize = frame_len as usize;
    proof {
        assert(sub.subrange(8, 8 + fl as int) =~= s@.subrange(cursor + 8, cursor + 8 + fl));
        assert(sub.subrange(8 + fl as int, sub.len() as int) =~= s@.subrange(
            cursor + 8 + fl,
            n as int,
        ));
    }
    Some((cursor + 8, cursor + 8 + fl))
}

/// Decodes wire bytes to a value. Decoding is total: bytes outside every
/// structural lane come back as an opaque value.
pub fn decode(s: &[u8]) -> (v: Value)
    ensures
        v@ == decode_spec(s@),
    decreases s@.len(),
{
    let n = s.len();
    if n > 0 && s[0] == 1 {
        let ghost tail0 = s@.subrange(1, n as int);
        let mut items: Vec<Value> = Vec::new();
        let mut cursor: usize = 1;
        let mut done: bool = false;
        while !done
            invariant
                1 <= cursor <= n,
                n == s@.len(),
                tail0 == s@.subrange(1, n as int),
                decode_items(tail0) == views_of_list(items@) + decode_items(
                    s@.subrange(cursor as int, n as int),
                ),
                done ==> decode_items(s@.subrange(cursor as int, n as int))
                    == Seq::<Val>::empty(),
            decreases n - cursor, (if done { 0int } else { 1int }),
        {
            let ghost c0 = cursor as int;
            match next_frame(s, cursor) {
                None => {
                    done = true;
                },
                Some((st, en)) => {
                    let payload = vstd::slice::slice_subrange(s, st, en);
                    let item = decode(payload);
                    proof {
                        lemma_views_of_list_push(items@, item);
                        assert(decode_items(s@.subrange(c0, n as int)) == seq![
                            decode_spec(payload@),
                        ] + decode_items(s@.subrange(en as int, n as int)));
                        assert(views_of_list(items@.push(item)) + decode_items(
                            s@.subrange(en as int, n as int),
                        ) =~= views_of_list(items@) + decode_items(s@.subrange(c0, n as int)));
                    }
                    items.push(item);
                    cursor = en;
                },
            }
        }
        proof {
            assert(decode_items(tail0) =~= views_of_list(items@));
            assert(s@.drop_first() =~= tail0);
        }
        Value::List(items)
    } else if n > 0 && s[0] == 2 {
        let ghost tail0 = s@.subrange(1, n as int);
        let mut entries: Vec<(String, Value)> = Vec::new();
        let mut cursor: usize = 1;
        let mut done: bool = false;
        while !done
            invariant
                1 <= cursor <= n,
                n == s@.len(),
                tail0 == s@.subrange(1, n as int),
                decode_entries(tail0) == views_of_map(entries@) + decode_entries(
                    s@.subrange(cursor as int, n as int),
                ),
                done ==> decode_entries(s@.subrange(cursor as int, n as int)) == Seq::<
                    (Seq<u8>, Val),
                >::empty(),
            decreases n - cursor, (if done { 0int } else { 1int }),
        {
            let ghost c0 = cursor as int;
            match next_frame(s, cursor) {
                None => {
                    done = true;
                },
                Some((kst, ken)) => {
                    match next_frame(s, ken) {
                        None => {
                            done = true;
                        },
                        Some((vst, ven)) => {
                            let key_bytes = vstd::slice::slice_subrange(s, kst, ken);
                            match bytes_to_string(key_bytes) {
                                None => {
                                    done = true;
                                },
                                Some(kstr) => {
                                    let payload = vstd::slice::slice_subrange(s, vst, ven);
                                    let val = decode(payload);
                                    proof {
                                        lemma_views_of_map_push(entries@, (kstr, val));
                                        assert(decode_entries(s@.subrange(c0, n as int)) == seq![
                                            (key_bytes@, decode_spec(payload@)),
                                        ] + decode_entries(s@.subrange(ven as int, n as int)));
                                        assert(views_of_map(entries@.push((kstr, val)))
                                            + decode_entries(s@.subrange(ven as int, n as int))
                                            =~= views_of_map(entries@) + decode_entries(
                                            s@.subrange(c0, n as int),
                                        ));
                                    }
                                    entries.push((kstr, val));
                                    cursor = ven;
                                },
                            }
                        },
                    }
                },
            }
        }
        proof {
            assert(decode_entries(tail0) =~= views_of_map(entries@));
            assert(s@.drop_first() =~= tail0);
        }
        Value::Dict(entries)
    } else {
        match parse_i64(s) {
            Some(i) => Value::Int(i),
            None => {
                let is_f = is_float(s);
                match bytes_to_string(s) {
                    Some(t) => if is_f {
                        Value::Float(t)
                    } else {
                        Value::Str(t)
                    },
                    None => {
                        proof {
                            if is_float_text(s@) {
                                lemma_float_text_bytes(s@);
                                lemma_ascii_valid_utf8(s@);
                            }
                        }
                        Value::Opaque(vstd::slice::slice_to_vec(s))
                    },
                }
            },
        }
    }
}

} // verus!
