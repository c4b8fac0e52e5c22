//! Encoding of binary property lists. The objects are laid out in
//! pre-order: a container comes first, then (for a dictionary) its keys,
//! then each element's objects in turn. Integers, counts, object
//! references and offsets take the fewest of 1, 2, 4 or 8 bytes that hold
//! them; negative integers take eight. Text that is all ASCII is stored as
//! bytes, other text as UTF-16.
use vstd::prelude::*;
use vstd::utf8::{encode_utf8, is_ascii_chars};
use crate::bytes::{be_bytes, pow256, push_be};
use crate::plist::decode::{
    entries_of, lemma_views_of, magic, spec_decode, utf16_text, view_of, views_of, width,
    DecodeErrorView, PlistValue, PlistView, MAX_DEPTH,
};

verus! {

/// Errors from encoding a binary property list.
#[derive(Debug, Clone, Copy, PartialEq, Eq)]
pub enum PlistEncodeError {
    /// Containers nest more deeply than a decoder reads
    /// (`decode::MAX_DEPTH`).
    TooDeep,
    /// The encoding would be longer than `usize::MAX` bytes.
    TooLarge,
}

/// The code (0 to 3) of the fewest of 1, 2, 4 or 8 bytes that hold `n`.
pub open spec fn width_code(n: nat) -> nat {
    if n < 0x100 {
        0
    } else if n < 0x1_0000 {
        1
    } else if n < 0x1_0000_0000 {
        2
    } else {
        3
    }
}

/// The fewest of 1, 2, 4 or 8 bytes that hold `n`.
pub open spec fn min_width(n: nat) -> nat {
    width(width_code(n))
}

/// An integer object holding `n`, in the fewest bytes.
pub open spec fn uint_object(n: nat) -> Seq<u8> {
    seq![(0x10 + width_code(n)) as u8] + be_bytes(n, min_width(n))
}

/// An integer object holding `i`: the fewest bytes when it is not
/// negative, else eight bytes of two's complement.
pub open spec fn int_object(i: i64) -> Seq<u8> {
    if i >= 0 {
        uint_object(i as nat)
    } else {
        seq![0x13u8] + be_bytes((i + 0x1_0000_0000_0000_0000) as nat, 8)
    }
}

/// A marker of type `hi` with count `n`: the count in the low nibble when
/// below 15, else 15 there and an integer object after it.
pub open spec fn count_head(hi: nat, n: nat) -> Seq<u8> {
    if n < 15 {
        seq![(hi * 16 + n) as u8]
    } else {
        seq![(hi * 16 + 15) as u8] + uint_object(n)
    }
}

/// What `str::encode_utf16` gives for a text: its UTF-16 code units.
pub uninterp spec fn utf16_of(s: Seq<char>) -> Seq<u16>;

/// `str::encode_utf16`, collected: the UTF-16 code units of the text,
/// which `String::from_utf16` decodes back to the same text.
#[verifier::external_body]
fn utf16_encode(s: &str) -> (r: Vec<u16>)
    ensures
        r@ == utf16_of(s@),
        utf16_text(r@) == Some(s@),
{
    s.encode_utf16().collect()
}

/// Code units as big-endian byte pairs.
pub open spec fn utf16_bytes(u: Seq<u16>) -> Seq<u8> {
    Seq::new(
        2 * u.len(),
        |i: int|
            if i % 2 == 0 {
                (u[i / 2] / 256) as u8
            } else {
                (u[i / 2] % 256) as u8
            },
    )
}

/// A string object: ASCII text as its bytes, other text as UTF-16.
pub open spec fn text_object(s: Seq<char>) -> Seq<u8> {
    if is_ascii_chars(s) {
        count_head(5, s.len()) + encode_utf8(s)
    } else {
        count_head(6, utf16_of(s).len()) + utf16_bytes(utf16_of(s))
    }
}

/// The object of a value that is not a container.
pub open spec fn scalar_object(v: PlistView) -> Seq<u8> {
    match v {
        PlistView::Boolean(b) => seq![
            if b {
                9u8
            } else {
                8u8
            },
        ],
        PlistView::Integer(i) => int_object(i),
        PlistView::UnsignedInteger(u) => seq![0x14u8] + be_bytes(0, 8) + be_bytes(u as nat, 8),
        PlistView::Real(b) => seq![0x23u8] + be_bytes(b as nat, 8),
        PlistView::Real32(b) => seq![0x22u8] + be_bytes(b as nat, 4),
        PlistView::Date(b) => seq![0x33u8] + be_bytes(b as nat, 8),
        PlistView::String(s) => text_object(s),
        PlistView::Data(d) => count_head(4, d.len()) + d,
        PlistView::Uid(u) => seq![0x87u8] + be_bytes(u as nat, 8),
        _ => Seq::empty(),
    }
}

/// How many objects a value takes: one, plus its keys and the objects of
/// its elements for a container.
pub open spec fn count(v: PlistView) -> nat
    decreases v, 0nat,
{
    match v {
        PlistView::Array(a) => 1 + list_count(a),
        PlistView::Dictionary(e) => 1 + e.len() + entries_count(e),
        _ => 1,
    }
}

/// How many objects the values take together.
pub open spec fn list_count(s: Seq<PlistView>) -> nat
    decreases s, 1nat,
{
    if s.len() == 0 {
        0
    } else {
        list_count(s.drop_last()) + count(s.last())
    }
}

/// How many objects the entries' values take together.
pub open spec fn entries_count(e: Seq<(Seq<char>, PlistView)>) -> nat
    decreases e, 1nat,
{
    if e.len() == 0 {
        0
    } else {
        entries_count(e.drop_last()) + count(e.last().1)
    }
}

/// How deeply a value nests: one for a value that is not a container;
/// a container adds one to its deepest element (a key counts as one).
pub open spec fn height(v: PlistView) -> nat
    decreases v, 0nat,
{
    match v {
        PlistView::Array(a) => 1 + list_height(a),
        PlistView::Dictionary(e) => 1 + entries_height(e),
        _ => 1,
    }
}

/// The largest height among the values (0 for none).
pub open spec fn list_height(s: Seq<PlistView>) -> nat
    decreases s, 1nat,
{
    if s.len() == 0 {
        0
    } else {
        let h = height(s.last());
        let r = list_height(s.drop_last());
        if h > r {
            h
        } else {
            r
        }
    }
}

/// The largest height among the entries' keys (one each) and values (0 for
/// none).
pub open spec fn entries_height(e: Seq<(Seq<char>, PlistView)>) -> nat
    decreases e, 1nat,
{
    if e.len() == 0 {
        0
    } else {
        let h = height(e.last().1);
        let r = entries_height(e.drop_last());
        let m = if h > r {
            h
        } else {
            r
        };
        if m > 1 {
            m
        } else {
            1
        }
    }
}

/// Whether a text comes back from its encoding: ASCII text always, other
/// text when `String::from_utf16` reads its UTF-16 code units as it.
pub open spec fn text_round(s: Seq<char>) -> bool {
    is_ascii_chars(s) || utf16_text(utf16_of(s)) == Some(s)
}

/// Whether every text in a value (keys included) comes back from its
/// encoding.
pub open spec fn texts_round(v: PlistView) -> bool
    decreases v, 0nat,
{
    match v {
        PlistView::String(s) => text_round(s),
        PlistView::Array(a) => list_texts_round(a),
        PlistView::Dictionary(e) => entries_texts_round(e),
        _ => true,
    }
}

/// Whether every text in the values comes back from its encoding.
pub open spec fn list_texts_round(s: Seq<PlistView>) -> bool
    decreases s, 1nat,
{
    s.len() == 0 || (list_texts_round(s.drop_last()) && texts_round(s.last()))
}

/// Whether every key and every text in the values comes back from its
/// encoding.
pub open spec fn entries_texts_round(e: Seq<(Seq<char>, PlistView)>) -> bool
    decreases e, 1nat,
{
    e.len() == 0 || (entries_texts_round(e.drop_last()) && text_round(e.last().0)
        && texts_round(e.last().1))
}

/// Where each value's objects begin when the first begins at `b`.
pub open spec fn list_starts(s: Seq<PlistView>, b: nat) -> Seq<nat>
    decreases s.len(),
{
    if s.len() == 0 {
        Seq::empty()
    } else {
        list_starts(s.drop_last(), b).push(b + list_count(s.drop_last()))
    }
}

/// Where each entry value's objects begin when the first begins at `b`.
pub open spec fn entry_starts(e: Seq<(Seq<char>, PlistView)>, b: nat) -> Seq<nat>
    decreases e.len(),
{
    if e.len() == 0 {
        Seq::empty()
    } else {
        entry_starts(e.drop_last(), b).push(b + entries_count(e.drop_last()))
    }
}

/// The `n` indices from `b` on.
pub open spec fn indices_from(b: nat, n: nat) -> Seq<nat> {
    Seq::new(n, |i: int| b + i as nat)
}

/// Object references of `w` bytes each.
pub open spec fn ref_bytes(refs: Seq<nat>, w: nat) -> Seq<u8>
    decreases refs.len(),
{
    if refs.len() == 0 {
        Seq::empty()
    } else {
        ref_bytes(refs.drop_last(), w) + be_bytes(refs.last(), w)
    }
}

/// The first object of a value placed at index `b`, with references of
/// `w` bytes.
pub open spec fn head_object(v: PlistView, b: nat, w: nat) -> Seq<u8> {
    match v {
        PlistView::Array(a) => count_head(0xA, a.len()) + ref_bytes(list_starts(a, b + 1), w),
        PlistView::Dictionary(e) => count_head(0xD, e.len()) + ref_bytes(
            indices_from(b + 1, e.len()),
            w,
        ) + ref_bytes(entry_starts(e, b + 1 + e.len()), w),
        _ => scalar_object(v),
    }
}

/// The objects of a value placed at index `b`, in order.
pub open spec fn objects(v: PlistView, b: nat, w: nat) -> Seq<Seq<u8>>
    decreases v, 0nat,
{
    match v {
        PlistView::Array(a) => seq![head_object(v, b, w)] + list_objects(a, b + 1, w),
        PlistView::Dictionary(e) => seq![head_object(v, b, w)] + key_objects(e) + entry_objects(
            e,
            b + 1 + e.len(),
            w,
        ),
        _ => seq![scalar_object(v)],
    }
}

/// The objects of the values, placed from index `b` on.
pub open spec fn list_objects(s: Seq<PlistView>, b: nat, w: nat) -> Seq<Seq<u8>>
    decreases s, 1nat,
{
    if s.len() == 0 {
        Seq::empty()
    } else {
        list_objects(s.drop_last(), b, w) + objects(s.last(), b + list_count(s.drop_last()), w)
    }
}

/// The string objects of the entries' keys.
pub open spec fn key_objects(e: Seq<(Seq<char>, PlistView)>) -> Seq<Seq<u8>> {
    Seq::new(e.len(), |i: int| text_object(e[i].0))
}

/// The objects of the entries' values, placed from index `b` on.
pub open spec fn entry_objects(e: Seq<(Seq<char>, PlistView)>, b: nat, w: nat) -> Seq<Seq<u8>>
    decreases e, 1nat,
{
    if e.len() == 0 {
        Seq::empty()
    } else {
        entry_objects(e.drop_last(), b, w) + objects(
            e.last().1,
            b + entries_count(e.drop_last()),
            w,
        )
    }
}

/// Byte strings one after another.
pub open spec fn join(parts: Seq<Seq<u8>>) -> Seq<u8>
    decreases parts.len(),
{
    if parts.len() == 0 {
        Seq::empty()
    } else {
        join(parts.drop_last()) + parts.last()
    }
}

/// The offsets of objects laid out one after another from byte 8.
pub open spec fn offsets(objs: Seq<Seq<u8>>) -> Seq<nat> {
    Seq::new(objs.len(), |k: int| 8 + join(objs.take(k)).len())
}

/// The offset table: each offset in `w` bytes.
pub open spec fn offset_table(objs: Seq<Seq<u8>>, w: nat) -> Seq<u8> {
    ref_bytes(offsets(objs), w)
}

/// The trailer: six unused bytes, the widths of offsets and references,
/// the number of objects, the top object and where the offset table
/// starts.
pub open spec fn trailer_bytes(offset_size: nat, ref_size: nat, n: nat, table_start: nat) -> Seq<
    u8,
> {
    seq![0u8, 0u8, 0u8, 0u8, 0u8, 0u8, offset_size as u8, ref_size as u8] + be_bytes(n, 8)
        + be_bytes(0, 8) + be_bytes(table_start, 8)
}

/// The encoding of a value: the header, its objects from index 0 (the top
/// object), the offset table and the trailer.
pub open spec fn spec_encode(v: PlistView) -> Seq<u8> {
    let n = count(v);
    let w = min_width(n);
    let objs = objects(v, 0, w);
    let table_start = 8 + join(objs).len();
    let osz = min_width(table_start);
    magic() + join(objs) + offset_table(objs, osz) + trailer_bytes(osz, w, n, table_start)
}

/// Append the integer object of `n`.
fn push_uint_object(buf: &mut Vec<u8>, n: u64)
    ensures
        final(buf)@ == old(buf)@ + uint_object(n as nat),
{
    let code: u8 = if n < 0x100 {
        0
    } else if n < 0x1_0000 {
        1
    } else if n < 0x1_0000_0000 {
        2
    } else {
        3
    };
    let w: usize = if code == 0 {
        1
    } else if code == 1 {
        2
    } else if code == 2 {
        4
    } else {
        8
    };
    buf.push(0x10 + code);
    push_be(buf, n, w);
    proof {
        assert(buf@ =~= old(buf)@ + uint_object(n as nat));
    }
}

/// Append a marker of type `hi` with count `n`.
fn push_count_head(buf: &mut Vec<u8>, hi: u8, n: usize)
    requires
        hi < 16,
    ensures
        final(buf)@ == old(buf)@ + count_head(hi as nat, n as nat),
{
    if n < 15 {
        buf.push(hi * 16 + n as u8);
        proof {
            assert(buf@ =~= old(buf)@ + count_head(hi as nat, n as nat));
        }
    } else {
        buf.push(hi * 16 + 15);
        push_uint_object(buf, n as u64);
        proof {
            assert(buf@ =~= old(buf)@ + count_head(hi as nat, n as nat));
        }
    }
}

/// The string object of a text.
fn text_object_bytes(s: &str) -> (r: Vec<u8>)
    ensures
        r@ == text_object(s@),
        text_round(s@),
{
    let mut buf: Vec<u8> = Vec::new();
    if s.is_ascii() {
        let bytes = s.as_bytes();
        proof {
            vstd::utf8::is_ascii_chars_encode_utf8(s@);
        }
        push_count_head(&mut buf, 5, bytes.len());
        buf.extend_from_slice(bytes);
        proof {
            assert(buf@ =~= text_object(s@));
        }
    } else {
        let units = utf16_encode(s);
        push_count_head(&mut buf, 6, units.len());
        let ghost head = buf@;
        let mut k: usize = 0;
        while k < units.len()
            invariant
                k <= units@.len(),
                buf@ == head + utf16_bytes(units@).take(2 * k),
            decreases units@.len() - k,
        {
            let u = units[k];
            buf.push((u / 256) as u8);
            buf.push((u % 256) as u8);
            proof {
                let all = utf16_bytes(units@);
                assert((2 * k) % 2 == 0 && (2 * k) / 2 == k) by (nonlinear_arith);
                assert((2 * k + 1) % 2 == 1 && (2 * k + 1) / 2 == k) by (nonlinear_arith);
                assert(all.take(2 * k + 2) =~= all.take(2 * k as int).push((u / 256) as u8).push(
                    (u % 256) as u8,
                ));
            }
            k = k + 1;
        }
        proof {
            assert(utf16_bytes(units@).take(2 * units@.len() as int) =~= utf16_bytes(units@));
            assert(buf@ =~= text_object(s@));
        }
    }
    buf
}

/// The object of a value that is not a container.
fn scalar_object_bytes(v: &PlistValue) -> (r: Vec<u8>)
    requires
        !(v is Array),
        !(v is Dictionary),
    ensures
        r@ == scalar_object(v@),
        texts_round(v@),
{
    let mut buf: Vec<u8> = Vec::new();
    match v {
        PlistValue::Boolean(b) => {
            buf.push(if *b {
                9
            } else {
                8
            });
        },
        PlistValue::Integer(i) => {
            if *i >= 0 {
                push_uint_object(&mut buf, *i as u64);
            } else {
                let a: u64 = (-(*i + 1)) as u64;
                buf.push(0x13);
                push_be(&mut buf, u64::MAX - a, 8);
            }
        },
        PlistValue::UnsignedInteger(u) => {
            buf.push(0x14);
            push_be(&mut buf, 0, 8);
            push_be(&mut buf, *u, 8);
        },
        PlistValue::Real(b) => {
            buf.push(0x23);
            push_be(&mut buf, *b, 8);
        },
        PlistValue::Real32(b) => {
            buf.push(0x22);
            push_be(&mut buf, *b as u64, 4);
        },
        PlistValue::Date(b) => {
            buf.push(0x33);
            push_be(&mut buf, *b, 8);
        },
        PlistValue::String(s) => {
            buf = text_object_bytes(s.as_str());
        },
        PlistValue::Data(d) => {
            push_count_head(&mut buf, 4, d.len());
            buf.extend_from_slice(d.as_slice());
        },
        PlistValue::Uid(u) => {
            buf.push(0x87);
            push_be(&mut buf, *u, 8);
        },
        _ => {},
    }
    proof {
        assert(buf@ =~= scalar_object(v@));
    }
    buf
}

/// The entries' views have one entry per entry: its key's text and its
/// value's view.
pub(crate) proof fn lemma_entries_of(s: Seq<(String, PlistValue)>)
    ensures
        entries_of(s).len() == s.len(),
        forall|i: int|
            0 <= i < s.len() ==> #[trigger] entries_of(s)[i] == (s[i].0@, view_of(s[i].1)),
    decreases s.len(),
{
    if s.len() > 0 {
        lemma_entries_of(s.drop_last());
        assert forall|i: int| 0 <= i < s.len() implies #[trigger] entries_of(s)[i] == (
            s[i].0@,
            view_of(s[i].1),
        ) by {
            if i < s.len() - 1 {
                assert(s.drop_last()[i] == s[i]);
            }
        }
    }
}

/// A value's objects count at least its elements' together, and each
/// prefix of them.
pub(crate) proof fn lemma_list_count_prefix(s: Seq<PlistView>, i: int)
    requires
        0 <= i <= s.len(),
    ensures
        list_count(s.take(i)) <= list_count(s),
        i < s.len() ==> list_count(s.take(i)) + count(s[i]) <= list_count(s),
    decreases s.len(),
{
    if i < s.len() {
        lemma_list_count_prefix(s.drop_last(), i);
        assert(s.drop_last().take(i) =~= s.take(i));
        if i < s.len() - 1 {
            assert(s.drop_last()[i] == s[i]);
        } else {
            assert(s.take(i) =~= s.drop_last());
        }
    } else {
        assert(s.take(i) =~= s);
    }
}

/// The same for the values of entries.
pub(crate) proof fn lemma_entries_count_prefix(e: Seq<(Seq<char>, PlistView)>, i: int)
    requires
        0 <= i <= e.len(),
    ensures
        entries_count(e.take(i)) <= entries_count(e),
        i < e.len() ==> entries_count(e.take(i)) + count(e[i].1) <= entries_count(e),
    decreases e.len(),
{
    if i < e.len() {
        lemma_entries_count_prefix(e.drop_last(), i);
        assert(e.drop_last().take(i) =~= e.take(i));
        if i < e.len() - 1 {
            assert(e.drop_last()[i] == e[i]);
        } else {
            assert(e.take(i) =~= e.drop_last());
        }
    } else {
        assert(e.take(i) =~= e);
    }
}

/// The height of the values bounds each value's.
pub(crate) proof fn lemma_list_height_bound(s: Seq<PlistView>, i: int)
    requires
        0 <= i < s.len(),
    ensures
        height(s[i]) <= list_height(s),
    decreases s.len(),
{
    if i < s.len() - 1 {
        lemma_list_height_bound(s.drop_last(), i);
        assert(s.drop_last()[i] == s[i]);
    }
}

/// The height of the entries bounds each value's.
pub(crate) proof fn lemma_entries_height_bound(e: Seq<(Seq<char>, PlistView)>, i: int)
    requires
        0 <= i < e.len(),
    ensures
        height(e[i].1) <= entries_height(e),
        1 <= entries_height(e),
    decreases e.len(),
{
    if i < e.len() - 1 {
        lemma_entries_height_bound(e.drop_last(), i);
        assert(e.drop_last()[i] == e[i]);
    }
}

/// The number of objects a value takes, when it fits in a `usize`.
fn count_objects(v: &PlistValue) -> (r: Option<usize>)
    ensures
        r matches Some(n) ==> n as nat == count(v@),
        r is None ==> count(v@) > usize::MAX,
    decreases v,
{
    match v {
        PlistValue::Array(a) => {
            let ghost va = views_of(a@);
            proof {
                lemma_views_of(a@);
            }
            let mut total: usize = 1;
            let mut i: usize = 0;
            while i < a.len()
                invariant
                    i <= a@.len(),
                    va == views_of(a@),
                    va.len() == a@.len(),
                    forall|j: int| 0 <= j < a@.len() ==> #[trigger] va[j] == view_of(a@[j]),
                    total as nat == 1 + list_count(va.take(i as int)),
                    v@ == PlistView::Array(va),
                    *v == PlistValue::Array(*a),
                decreases a@.len() - i,
            {
                proof {
                    lemma_list_count_prefix(va, i as int);
                    assert(va.take(i + 1).drop_last() =~= va.take(i as int));
                }
                proof {
                    assert(decreases_to!(*v => a@[i as int]));
                }
                match count_objects(&a[i]) {
                    None => {
                        return None;
                    },
                    Some(c) => match total.checked_add(c) {
                        None => {
                            return None;
                        },
                        Some(t) => {
                            total = t;
                        },
                    },
                }
                i = i + 1;
            }
            proof {
                assert(va.take(a@.len() as int) =~= va);
            }
            Some(total)
        },
        PlistValue::Dictionary(d) => {
            let ghost e = entries_of(d@);
            proof {
                lemma_entries_of(d@);
            }
            let mut total: usize = match d.len().checked_add(1) {
                None => {
                    return None;
                },
                Some(t) => t,
            };
            let mut i: usize = 0;
            while i < d.len()
                invariant
                    i <= d@.len(),
                    e == entries_of(d@),
                    e.len() == d@.len(),
                    forall|j: int|
                        0 <= j < d@.len() ==> #[trigger] e[j] == (d@[j].0@, view_of(d@[j].1)),
                    total as nat == 1 + d@.len() + entries_count(e.take(i as int)),
                    v@ == PlistView::Dictionary(e),
                    *v == PlistValue::Dictionary(*d),
                decreases d@.len() - i,
            {
                proof {
                    lemma_entries_count_prefix(e, i as int);
                    assert(e.take(i + 1).drop_last() =~= e.take(i as int));
                }
                proof {
                    assert(decreases_to!(*v => d@[i as int].1));
                }
                match count_objects(&d[i].1) {
                    None => {
                        return None;
                    },
                    Some(c) => match total.checked_add(c) {
                        None => {
                            return None;
                        },
                        Some(t) => {
                            total = t;
                        },
                    },
                }
                i = i + 1;
            }
            proof {
                assert(e.take(d@.len() as int) =~= e);
            }
            Some(total)
        },
        _ => Some(1),
    }
}

/// Whether a value nests at most `limit` deep.
fn nests_within(v: &PlistValue, limit: usize) -> (r: bool)
    ensures
        r == (height(v@) <= limit),
    decreases v,
{
    match v {
        PlistValue::Array(a) => {
            if limit == 0 {
                return false;
            }
            let ghost va = views_of(a@);
            proof {
                lemma_views_of(a@);
            }
            let mut i: usize = 0;
            while i < a.len()
                invariant
                    i <= a@.len(),
                    limit >= 1,
                    va == views_of(a@),
                    va.len() == a@.len(),
                    forall|j: int| 0 <= j < a@.len() ==> #[trigger] va[j] == view_of(a@[j]),
                    list_height(va.take(i as int)) <= limit - 1,
                    v@ == PlistView::Array(va),
                    *v == PlistValue::Array(*a),
                decreases a@.len() - i,
            {
                proof {
                    assert(va.take(i + 1).drop_last() =~= va.take(i as int));
                }
                if !nests_within(&a[i], limit - 1) {
                    proof {
                        lemma_list_height_bound(va, i as int);
                    }
                    return false;
                }
                i = i + 1;
            }
            proof {
                assert(va.take(a@.len() as int) =~= va);
            }
            true
        },
        PlistValue::Dictionary(d) => {
            if limit == 0 {
                return false;
            }
            let ghost e = entries_of(d@);
            proof {
                lemma_entries_of(d@);
            }
            if d.len() > 0 && limit < 2 {
                proof {
                    lemma_entries_height_bound(e, 0);
                }
                return false;
            }
            let mut i: usize = 0;
            while i < d.len()
                invariant
                    i <= d@.len(),
                    limit >= 1,
                    d@.len() > 0 ==> limit >= 2,
                    e == entries_of(d@),
                    e.len() == d@.len(),
                    forall|j: int|
                        0 <= j < d@.len() ==> #[trigger] e[j] == (d@[j].0@, view_of(d@[j].1)),
                    entries_height(e.take(i as int)) <= limit - 1,
                    v@ == PlistView::Dictionary(e),
                    *v == PlistValue::Dictionary(*d),
                decreases d@.len() - i,
            {
                proof {
                    assert(e.take(i + 1).drop_last() =~= e.take(i as int));
                }
                if !nests_within(&d[i].1, limit - 1) {
                    proof {
                        lemma_entries_height_bound(e, i as int);
                    }
                    return false;
                }
                i = i + 1;
            }
            proof {
                assert(e.take(d@.len() as int) =~= e);
            }
            true
        },
        _ => limit >= 1,
    }
}

/// Byte vectors as the contracts see them.
pub open spec fn seqs_of(v: Seq<Vec<u8>>) -> Seq<Seq<u8>> {
    Seq::new(v.len(), |i: int| v[i]@)
}

/// Indices as the contracts see them.
pub open spec fn usize_nats(s: Seq<usize>) -> Seq<nat> {
    Seq::new(s.len(), |i: int| s[i] as nat)
}

/// A value has as many objects as it counts.
pub(crate) proof fn lemma_objects_len(v: PlistView, b: nat, w: nat)
    ensures
        objects(v, b, w).len() == count(v),
    decreases v, 0nat,
{
    match v {
        PlistView::Array(a) => {
            lemma_list_objects_len(a, b + 1, w);
        },
        PlistView::Dictionary(e) => {
            lemma_entry_objects_len(e, b + 1 + e.len(), w);
        },
        _ => {},
    }
}

/// Values have as many objects as they count together.
pub(crate) proof fn lemma_list_objects_len(s: Seq<PlistView>, b: nat, w: nat)
    ensures
        list_objects(s, b, w).len() == list_count(s),
    decreases s, 1nat,
{
    if s.len() > 0 {
        lemma_list_objects_len(s.drop_last(), b, w);
        lemma_objects_len(s.last(), b + list_count(s.drop_last()), w);
    }
}

/// Entries' values have as many objects as they count together.
pub(crate) proof fn lemma_entry_objects_len(e: Seq<(Seq<char>, PlistView)>, b: nat, w: nat)
    ensures
        entry_objects(e, b, w).len() == entries_count(e),
    decreases e, 1nat,
{
    if e.len() > 0 {
        lemma_entry_objects_len(e.drop_last(), b, w);
        lemma_objects_len(e.last().1, b + entries_count(e.drop_last()), w);
    }
}

/// Append object references of `w` bytes each.
fn push_refs(buf: &mut Vec<u8>, refs: &Vec<usize>, w: usize)
    requires
        w <= 8,
    ensures
        final(buf)@ == old(buf)@ + ref_bytes(usize_nats(refs@), w as nat),
{
    let mut k: usize = 0;
    while k < refs.len()
        invariant
            k <= refs@.len(),
            w <= 8,
            buf@ == old(buf)@ + ref_bytes(usize_nats(refs@).take(k as int), w as nat),
        decreases refs@.len() - k,
    {
        let ghost before = buf@;
        push_be(buf, refs[k] as u64, w);
        proof {
            let rs = usize_nats(refs@);
            assert(rs.take(k + 1).drop_last() =~= rs.take(k as int));
            assert(buf@ =~= old(buf)@ + ref_bytes(rs.take(k + 1), w as nat));
        }
        k = k + 1;
    }
    proof {
        assert(usize_nats(refs@).take(refs@.len() as int) =~= usize_nats(refs@));
    }
}

/// Append the objects of a value placed at index `out.len()`, with
/// references of `w` bytes.
fn push_objects(v: &PlistValue, w: usize, out: &mut Vec<Vec<u8>>)
    requires
        w <= 8,
    ensures
        seqs_of(final(out)@) == seqs_of(old(out)@) + objects(v@, old(out)@.len() as nat, w as nat),
        texts_round(v@),
    decreases v,
{
    let ghost before = seqs_of(out@);
    let base = out.len();
    match v {
        PlistValue::Array(a) => {
            let ghost va = views_of(a@);
            proof {
                lemma_views_of(a@);
            }
            out.push(Vec::new());
            let mut starts: Vec<usize> = Vec::new();
            let mut i: usize = 0;
            proof {
                assert(seqs_of(out@) =~= before + seq![Seq::<u8>::empty()] + list_objects(
                    va.take(0),
                    (base + 1) as nat,
                    w as nat,
                ));
                assert(usize_nats(starts@) =~= list_starts(va.take(0), (base + 1) as nat));
            }
            while i < a.len()
                invariant
                    i <= a@.len(),
                    w <= 8,
                    va == views_of(a@),
                    va.len() == a@.len(),
                    forall|j: int| 0 <= j < a@.len() ==> #[trigger] va[j] == view_of(a@[j]),
                    v@ == PlistView::Array(va),
                    *v == PlistValue::Array(*a),
                    base == old(out)@.len(),
                    before == seqs_of(old(out)@),
                    out@.len() == base + 1 + list_count(va.take(i as int)),
                    seqs_of(out@) == before + seq![Seq::<u8>::empty()] + list_objects(
                        va.take(i as int),
                        (base + 1) as nat,
                        w as nat,
                    ),
                    usize_nats(starts@) == list_starts(va.take(i as int), (base + 1) as nat),
                    list_texts_round(va.take(i as int)),
                decreases a@.len() - i,
            {
                let ghost mid = seqs_of(out@);
                let ghost st = starts@;
                proof {
                    assert(va.take(i + 1).drop_last() =~= va.take(i as int));
                    assert(va.take(i + 1).last() == va[i as int]);
                }
                starts.push(out.len());
                push_objects(&a[i], w, out);
                proof {
                    lemma_objects_len(
                        va[i as int],
                        (base + 1 + list_count(va.take(i as int))) as nat,
                        w as nat,
                    );
                    assert(list_count(va.take(i + 1)) == list_count(va.take(i as int)) + count(
                        va[i as int],
                    ));
                    assert(mid.len() == base + 1 + list_count(va.take(i as int)));
                    assert(out@.len() == seqs_of(out@).len());
                    assert(usize_nats(starts@) =~= usize_nats(st).push(
                        (base + 1 + list_count(va.take(i as int))) as nat,
                    ));
                }
                i = i + 1;
            }
            proof {
                assert(va.take(a@.len() as int) =~= va);
            }
            let mut head: Vec<u8> = Vec::new();
            push_count_head(&mut head, 0xA, a.len());
            push_refs(&mut head, &starts, w);
            let ghost filled = seqs_of(out@);
            out.set(base, head);
            proof {
                assert(seqs_of(out@) =~= filled.update(base as int, head@));
                assert(seqs_of(out@) =~= before + objects(v@, base as nat, w as nat));
            }
        },
        PlistValue::Dictionary(d) => {
            let ghost e = entries_of(d@);
            proof {
                lemma_entries_of(d@);
            }
            let n = d.len();
            out.push(Vec::new());
            let mut keys: Vec<usize> = Vec::new();
            let mut i: usize = 0;
            proof {
                assert(seqs_of(out@) =~= before + seq![Seq::<u8>::empty()] + key_objects(
                    e.take(0),
                ));
                assert(usize_nats(keys@) =~= indices_from((base + 1) as nat, 0));
            }
            while i < n
                invariant
                    i <= n,
                    n == d@.len(),
                    e == entries_of(d@),
                    e.len() == d@.len(),
                    forall|j: int|
                        0 <= j < d@.len() ==> #[trigger] e[j] == (d@[j].0@, view_of(d@[j].1)),
                    base == old(out)@.len(),
                    before == seqs_of(old(out)@),
                    out@.len() == base + 1 + i,
                    seqs_of(out@) == before + seq![Seq::<u8>::empty()] + key_objects(
                        e.take(i as int),
                    ),
                    usize_nats(keys@) == indices_from((base + 1) as nat, i as nat),
                    forall|j: int| 0 <= j < i ==> text_round(#[trigger] e[j].0),
                decreases n - i,
            {
                let ghost st = keys@;
                let ghost mid = seqs_of(out@);
                keys.push(out.len());
                let obj = text_object_bytes(d[i].0.as_str());
                out.push(obj);
                proof {
                    assert(keys@ == st.push((base + 1 + i) as usize));
                    assert(usize_nats(st).len() == st.len());
                    assert(indices_from((base + 1) as nat, i as nat).len() == i);
                    assert forall|j: int| 0 <= j < i + 1 implies #[trigger] usize_nats(keys@)[j]
                        == indices_from((base + 1) as nat, (i + 1) as nat)[j] by {
                        if j < i {
                            assert(usize_nats(st)[j] == indices_from((base + 1) as nat, i as nat)[j]);
                        }
                    }
                    assert(seqs_of(out@) =~= mid.push(obj@));
                    assert(e[i as int].0 == d@[i as int].0@);
                    assert(key_objects(e.take(i + 1)) =~= key_objects(e.take(i as int)).push(obj@));
                    assert(usize_nats(keys@) =~= indices_from((base + 1) as nat, (i + 1) as nat));
                    assert(seqs_of(out@) =~= before + seq![Seq::<u8>::empty()] + key_objects(
                        e.take(i + 1),
                    ));
                }
                i = i + 1;
            }
            proof {
                assert(e.take(n as int) =~= e);
            }
            let mut starts: Vec<usize> = Vec::new();
            let mut i: usize = 0;
            let ghost keyed = seqs_of(out@);
            proof {
                assert(keyed + entry_objects(e.take(0), (base + 1 + n) as nat, w as nat) =~= keyed);
                assert(usize_nats(starts@) =~= entry_starts(e.take(0), (base + 1 + n) as nat));
            }
            while i < n
                invariant
                    i <= n,
                    n == d@.len(),
                    w <= 8,
                    e == entries_of(d@),
                    e.len() == d@.len(),
                    forall|j: int|
                        0 <= j < d@.len() ==> #[trigger] e[j] == (d@[j].0@, view_of(d@[j].1)),
                    forall|j: int| 0 <= j < n ==> text_round(#[trigger] e[j].0),
                    v@ == PlistView::Dictionary(e),
                    *v == PlistValue::Dictionary(*d),
                    base == old(out)@.len(),
                    keyed == before + seq![Seq::<u8>::empty()] + key_objects(e),
                    out@.len() == base + 1 + n + entries_count(e.take(i as int)),
                    seqs_of(out@) == keyed + entry_objects(
                        e.take(i as int),
                        (base + 1 + n) as nat,
                        w as nat,
                    ),
                    usize_nats(starts@) == entry_starts(e.take(i as int), (base + 1 + n) as nat),
                    entries_texts_round(e.take(i as int)),
                decreases n - i,
            {
                let ghost st = starts@;
                let ghost mid = seqs_of(out@);
                proof {
                    assert(e.take(i + 1).drop_last() =~= e.take(i as int));
                    assert(e.take(i + 1).last() == e[i as int]);
                    assert(decreases_to!(*v => d@[i as int].1));
                }
                starts.push(out.len());
                push_objects(&d[i].1, w, out);
                proof {
                    lemma_objects_len(
                        e[i as int].1,
                        (base + 1 + n + entries_count(e.take(i as int))) as nat,
                        w as nat,
                    );
                    assert(usize_nats(starts@) =~= usize_nats(st).push(
                        (base + 1 + n + entries_count(e.take(i as int))) as nat,
                    ));
                    assert(entries_count(e.take(i + 1)) == entries_count(e.take(i as int))
                        + count(e[i as int].1));
                    assert(mid.len() == base + 1 + n + entries_count(e.take(i as int)));
                    assert(out@.len() == seqs_of(out@).len());
                }
                i = i + 1;
            }
            proof {
                assert(e.take(n as int) =~= e);
            }
            let mut head: Vec<u8> = Vec::new();
            push_count_head(&mut head, 0xD, n);
            push_refs(&mut head, &keys, w);
            push_refs(&mut head, &starts, w);
            let ghost filled = seqs_of(out@);
            out.set(base, head);
            proof {
                assert(seqs_of(out@) =~= filled.update(base as int, head@));
                assert(seqs_of(out@) =~= before + objects(v@, base as nat, w as nat));
            }
        },
        _ => {
            let obj = scalar_object_bytes(v);
            out.push(obj);
            proof {
                assert(seqs_of(out@) =~= before + objects(v@, base as nat, w as nat));
            }
        },
    }
}

/// The fewest of 1, 2, 4 or 8 bytes that hold `n`.
fn min_width_of(n: u64) -> (r: usize)
    ensures
        r as nat == min_width(n as nat),
        1 <= r <= 8,
{
    if n < 0x100 {
        1
    } else if n < 0x1_0000 {
        2
    } else if n < 0x1_0000_0000 {
        4
    } else {
        8
    }
}

/// Joining one more part appends it.
pub(crate) proof fn lemma_join_take(parts: Seq<Seq<u8>>, k: int)
    requires
        0 <= k < parts.len(),
    ensures
        join(parts.take(k + 1)) == join(parts.take(k)) + parts[k],
{
    assert(parts.take(k + 1).drop_last() =~= parts.take(k));
}

/// A prefix of the parts joins to no more bytes than all of them.
pub(crate) proof fn lemma_join_prefix_len(parts: Seq<Seq<u8>>, k: int)
    requires
        0 <= k <= parts.len(),
    ensures
        join(parts.take(k)).len() <= join(parts).len(),
    decreases parts.len() - k,
{
    if k < parts.len() {
        lemma_join_take(parts, k);
        lemma_join_prefix_len(parts, k + 1);
    } else {
        assert(parts.take(k) =~= parts);
    }
}

/// Parts of at least one byte each join to at least as many bytes as
/// there are parts.
pub(crate) proof fn lemma_join_len_bound(parts: Seq<Seq<u8>>)
    requires
        forall|k: int| 0 <= k < parts.len() ==> #[trigger] parts[k].len() >= 1,
    ensures
        join(parts).len() >= parts.len(),
    decreases parts.len(),
{
    if parts.len() > 0 {
        lemma_join_len_bound(parts.drop_last());
    }
}

/// A count head takes at least one byte.
pub(crate) proof fn lemma_count_head_nonempty(hi: nat, n: nat)
    ensures
        count_head(hi, n).len() >= 1,
{
}

/// Every object of a value takes at least one byte.
pub(crate) proof fn lemma_objects_nonempty(v: PlistView, b: nat, w: nat)
    ensures
        forall|k: int|
            0 <= k < objects(v, b, w).len() ==> #[trigger] objects(v, b, w)[k].len() >= 1,
    decreases v, 0nat,
{
    let o = objects(v, b, w);
    match v {
        PlistView::Array(a) => {
            let rest = list_objects(a, b + 1, w);
            lemma_list_objects_nonempty(a, b + 1, w);
            lemma_count_head_nonempty(0xA, a.len());
            assert forall|k: int| 0 <= k < o.len() implies #[trigger] o[k].len() >= 1 by {
                if k > 0 {
                    assert(o[k] == rest[k - 1]);
                }
            }
        },
        PlistView::Dictionary(e) => {
            let ko = key_objects(e);
            let eo = entry_objects(e, b + 1 + e.len(), w);
            lemma_entry_objects_nonempty(e, b + 1 + e.len(), w);
            lemma_count_head_nonempty(0xD, e.len());
            assert forall|k: int| 0 <= k < o.len() implies #[trigger] o[k].len() >= 1 by {
                if 1 <= k <= e.len() {
                    assert(o[k] == ko[k - 1]);
                    lemma_count_head_nonempty(5, e[k - 1].0.len());
                    lemma_count_head_nonempty(6, utf16_of(e[k - 1].0).len());
                } else if k > e.len() {
                    assert(o[k] == eo[k - 1 - e.len()]);
                }
            }
        },
        PlistView::String(s) => {
            lemma_count_head_nonempty(5, s.len());
            lemma_count_head_nonempty(6, utf16_of(s).len());
        },
        PlistView::Data(d) => {
            lemma_count_head_nonempty(4, d.len());
        },
        _ => {},
    }
}

/// Every object of the values takes at least one byte.
pub(crate) proof fn lemma_list_objects_nonempty(s: Seq<PlistView>, b: nat, w: nat)
    ensures
        forall|k: int|
            0 <= k < list_objects(s, b, w).len() ==> #[trigger] list_objects(s, b, w)[k].len()
                >= 1,
    decreases s, 1nat,
{
    if s.len() > 0 {
        let first = list_objects(s.drop_last(), b, w);
        let second = objects(s.last(), b + list_count(s.drop_last()), w);
        lemma_list_objects_nonempty(s.drop_last(), b, w);
        lemma_objects_nonempty(s.last(), b + list_count(s.drop_last()), w);
        let o = list_objects(s, b, w);
        assert forall|k: int| 0 <= k < o.len() implies #[trigger] o[k].len() >= 1 by {
            if k < first.len() {
                assert(o[k] == first[k]);
            } else {
                assert(o[k] == second[k - first.len()]);
            }
        }
    }
}

/// Every object of the entries' values takes at least one byte.
pub(crate) proof fn lemma_entry_objects_nonempty(e: Seq<(Seq<char>, PlistView)>, b: nat, w: nat)
    ensures
        forall|k: int|
            0 <= k < entry_objects(e, b, w).len() ==> #[trigger] entry_objects(e, b, w)[k].len()
                >= 1,
    decreases e, 1nat,
{
    if e.len() > 0 {
        let first = entry_objects(e.drop_last(), b, w);
        let second = objects(e.last().1, b + entries_count(e.drop_last()), w);
        lemma_entry_objects_nonempty(e.drop_last(), b, w);
        lemma_objects_nonempty(e.last().1, b + entries_count(e.drop_last()), w);
        let o = entry_objects(e, b, w);
        assert forall|k: int| 0 <= k < o.len() implies #[trigger] o[k].len() >= 1 by {
            if k < first.len() {
                assert(o[k] == first[k]);
            } else {
                assert(o[k] == second[k - first.len()]);
            }
        }
    }
}

/// References of `w` bytes each take `w` bytes per reference.
pub(crate) proof fn lemma_ref_bytes_len(refs: Seq<nat>, w: nat)
    ensures
        ref_bytes(refs, w).len() == refs.len() * w,
    decreases refs.len(),
{
    if refs.len() > 0 {
        lemma_ref_bytes_len(refs.drop_last(), w);
        crate::bytes::lemma_be_bytes_len(refs.last(), w);
        assert((refs.len() - 1) * w + w == refs.len() * w) by (nonlinear_arith);
    }
}

/// How long an encoding is: the header, the objects, an offset of `osz`
/// bytes per object and the trailer.
pub(crate) proof fn lemma_encode_len(v: PlistView)
    ensures
        spec_encode(v).len() == 8 + join(objects(v, 0, min_width(count(v)))).len() + count(v)
            * min_width(8 + join(objects(v, 0, min_width(count(v)))).len()) + 32,
{
    let w = min_width(count(v));
    let o = objects(v, 0, w);
    lemma_objects_len(v, 0, w);
    lemma_ref_bytes_len(offsets(o), min_width(8 + join(o).len()));
    crate::bytes::lemma_be_bytes_len(count(v), 8);
    crate::bytes::lemma_be_bytes_len(0, 8);
    crate::bytes::lemma_be_bytes_len(8 + join(o).len(), 8);
}

/// An encoding is at least as long as the value has objects.
pub(crate) proof fn lemma_encode_len_bound(v: PlistView)
    ensures
        spec_encode(v).len() >= count(v),
{
    let w = min_width(count(v));
    let objs = objects(v, 0, w);
    lemma_objects_len(v, 0, w);
    lemma_objects_nonempty(v, 0, w);
    lemma_join_len_bound(objs);
}

/// Encode a value as a binary property list: the header `bplist00`, the
/// objects, the offset table and the trailer, the value being the top
/// object (see `spec_encode`).
pub fn encode(value: &PlistValue) -> (r: Result<Vec<u8>, PlistEncodeError>)
    ensures
        height(value@) > MAX_DEPTH ==> r == Err::<Vec<u8>, PlistEncodeError>(
            PlistEncodeError::TooDeep,
        ),
        height(value@) <= MAX_DEPTH && spec_encode(value@).len() > usize::MAX ==> r == Err::<
            Vec<u8>,
            PlistEncodeError,
        >(PlistEncodeError::TooLarge),
        height(value@) <= MAX_DEPTH && spec_encode(value@).len() <= usize::MAX ==> (r matches Ok(
            b,
        ) && b@ == spec_encode(value@)),
        r matches Ok(b) ==> spec_decode(b@) == Ok::<PlistView, DecodeErrorView>(value@),
{
    if !nests_within(value, MAX_DEPTH) {
        return Err(PlistEncodeError::TooDeep);
    }
    let n = match count_objects(value) {
        None => {
            proof {
                lemma_encode_len_bound(value@);
            }
            return Err(PlistEncodeError::TooLarge);
        },
        Some(n) => n,
    };
    let w = min_width_of(n as u64);
    let mut objs: Vec<Vec<u8>> = Vec::new();
    push_objects(value, w, &mut objs);
    let ghost o = objects(value@, 0, w as nat);
    proof {
        assert(seqs_of(objs@) =~= o);
        lemma_objects_len(value@, 0, w as nat);
    }
    // Where each object begins, and where the offset table will.
    let mut offs: Vec<usize> = Vec::new();
    let mut pos: usize = 8;
    let mut k: usize = 0;
    while k < objs.len()
        invariant
            k <= objs@.len(),
            seqs_of(objs@) == o,
            pos == 8 + join(o.take(k as int)).len(),
            usize_nats(offs@) == offsets(o).take(k as int),
            height(value@) <= MAX_DEPTH,
            o == objects(value@, 0, min_width(count(value@))),
        decreases objs@.len() - k,
    {
        proof {
            lemma_join_take(o, k as int);
            lemma_join_prefix_len(o, k + 1);
        }
        let ghost st = offs@;
        offs.push(pos);
        proof {
            assert(usize_nats(st).len() == st.len());
            assert(forall|j: int| 0 <= j < k ==> usize_nats(st)[j] == #[trigger] offsets(o).take(
                k as int,
            )[j]);
            assert(usize_nats(offs@) =~= offsets(o).take(k + 1));
        }
        pos = match pos.checked_add(objs[k].len()) {
            None => {
                proof {
                    assert(objs@[k as int]@ == o[k as int]);
                    lemma_encode_len(value@);
                }
                return Err(PlistEncodeError::TooLarge);
            },
            Some(p) => p,
        };
        k = k + 1;
    }
    proof {
        assert(o.take(o.len() as int) =~= o);
        assert(offsets(o).take(o.len() as int) =~= offsets(o));
    }
    let table_start = pos;
    let osz = min_width_of(table_start as u64);
    proof {
        lemma_encode_len(value@);
    }
    let table_len = match n.checked_mul(osz) {
        None => {
            return Err(PlistEncodeError::TooLarge);
        },
        Some(t) => t,
    };
    match table_start.checked_add(table_len) {
        None => {
            return Err(PlistEncodeError::TooLarge);
        },
        Some(t) => if t > usize::MAX - 32 {
            return Err(PlistEncodeError::TooLarge);
        },
    }
    let mut out: Vec<u8> = Vec::new();
    out.push(98);
    out.push(112);
    out.push(108);
    out.push(105);
    out.push(115);
    out.push(116);
    out.push(48);
    out.push(48);
    proof {
        assert(out@ =~= magic() + join(o.take(0)));
    }
    let mut k: usize = 0;
    while k < objs.len()
        invariant
            k <= objs@.len(),
            seqs_of(objs@) == o,
            out@ == magic() + join(o.take(k as int)),
        decreases objs@.len() - k,
    {
        proof {
            lemma_join_take(o, k as int);
            assert(objs@[k as int]@ == o[k as int]);
        }
        out.extend_from_slice(objs[k].as_slice());
        proof {
            assert(out@ =~= magic() + join(o.take(k + 1)));
        }
        k = k + 1;
    }
    push_refs(&mut out, &offs, osz);
    out.push(0);
    out.push(0);
    out.push(0);
    out.push(0);
    out.push(0);
    out.push(0);
    out.push(osz as u8);
    out.push(w as u8);
    push_be(&mut out, n as u64, 8);
    push_be(&mut out, 0, 8);
    push_be(&mut out, table_start as u64, 8);
    proof {
        assert(out@ =~= spec_encode(value@));
        crate::plist::roundtrip::lemma_encode_decode(value@);
    }
    Ok(out)
}

} // verus!
