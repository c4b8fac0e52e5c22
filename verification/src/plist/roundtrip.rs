//! What the decoder gives back for what the encoder writes: the value
//! itself, for every value that nests at most `MAX_DEPTH` deep and whose
//! encoding is shorter than 2^64 bytes.
use vstd::prelude::*;
use crate::bytes::{
    be_bytes, be_value, lemma_be_bytes_len, lemma_be_value_of_bytes, lemma_pow256_values,
    lemma_small_mod, pow256,
};
use vstd::utf8::{encode_utf8, is_ascii_chars};
use crate::plist::decode::{
    all_text, count_of, magic, spec_decode, spec_trailer, trailer_ok, key_text, obj_offset, parse_list, parse_obj, refs_at, scalar_at,
    signed64, utf16_units, width, DecodeErrorView, PlistView, TrailerView, MAX_DEPTH,
};
use crate::plist::encode::{
    count, count_head, entries_count, entries_height, entries_texts_round, entry_objects,
    entry_starts, height, indices_from, join, key_objects, lemma_entries_count_prefix,
    lemma_entries_height_bound, lemma_entry_objects_len, lemma_join_take,
    lemma_list_count_prefix, lemma_list_height_bound, lemma_list_objects_len,
    lemma_objects_nonempty, lemma_ref_bytes_len, list_count, list_height, list_objects,
    list_starts, list_texts_round, min_width, objects, ref_bytes, scalar_object, text_object,
    text_round, texts_round, uint_object, utf16_bytes, utf16_of, width_code, offsets,
    offset_table, trailer_bytes, spec_encode, lemma_encode_len, lemma_encode_len_bound,
    lemma_objects_len,
};

verus! {

/// The fewest bytes for a number below 2^64 are one of 1, 2, 4 or 8 and
/// hold it.
pub(crate) proof fn lemma_min_width(x: nat)
    requires
        x < 0x1_0000_0000_0000_0000,
    ensures
        width_code(x) <= 3,
        min_width(x) == width(width_code(x)),
        1 <= min_width(x) <= 8,
        x < pow256(min_width(x)),
{
    lemma_pow256_values();
}

/// Reading back `n` big-endian bytes of a number below 256^n gives it.
pub(crate) proof fn lemma_be_roundtrip(x: nat, n: nat)
    requires
        x < pow256(n),
    ensures
        be_bytes(x, n).len() == n,
        be_value(be_bytes(x, n)) == x,
{
    lemma_be_bytes_len(x, n);
    lemma_be_value_of_bytes(x, n);
    lemma_small_mod(x, n);
}

/// Where `x` stands in `d` at `off`, its parts stand at the same distance.
pub(crate) proof fn lemma_sub(d: Seq<u8>, off: int, x: Seq<u8>, i: int, j: int)
    requires
        0 <= off,
        off + x.len() <= d.len(),
        d.subrange(off, off + x.len()) == x,
        0 <= i <= j <= x.len(),
    ensures
        d.subrange(off + i, off + j) == x.subrange(i, j),
        i < x.len() ==> d[off + i] == x[i],
{
    assert(d.subrange(off + i, off + j) =~= d.subrange(off, off + x.len()).subrange(i, j));
    if i < x.len() {
        assert(d[off + i] == d.subrange(off, off + x.len())[i]);
    }
}

/// The `k`-th reference of `w` bytes is the `k`-th group of `w` bytes.
pub(crate) proof fn lemma_ref_bytes_part(refs: Seq<nat>, w: nat, k: int)
    requires
        0 <= k < refs.len(),
    ensures
        ref_bytes(refs, w).len() == refs.len() * w,
        0 <= k * w,
        k * w + w == (k + 1) * w,
        (k + 1) * w <= refs.len() * w,
        ref_bytes(refs, w).subrange(k * w, (k + 1) * w) == be_bytes(refs[k], w),
    decreases refs.len(),
{
    crate::plist::encode::lemma_ref_bytes_len(refs, w);
    let n = refs.len();
    assert(0 <= k * w) by (nonlinear_arith)
        requires
            0 <= k,
    ;
    assert(k * w + w == (k + 1) * w) by (nonlinear_arith);
    assert((k + 1) * w <= n * w) by (nonlinear_arith)
        requires
            k + 1 <= n,
    ;
    let first = ref_bytes(refs.drop_last(), w);
    crate::plist::encode::lemma_ref_bytes_len(refs.drop_last(), w);
    lemma_be_bytes_len(refs.last(), w);
    assert((n - 1) * w == n * w - w) by (nonlinear_arith);
    if k < n - 1 {
        lemma_ref_bytes_part(refs.drop_last(), w, k);
        assert((k + 1) * w <= (n - 1) * w) by (nonlinear_arith)
            requires
                k + 1 <= n - 1,
        ;
        assert(first.len() == (n - 1) * w);
        assert(ref_bytes(refs, w) == first + be_bytes(refs.last(), w));
        assert(refs.drop_last()[k] == refs[k]);
        assert(first.subrange(k * w, (k + 1) * w) == be_bytes(refs[k], w));
        assert(ref_bytes(refs, w).subrange(k * w, (k + 1) * w) =~= first.subrange(
            k * w,
            (k + 1) * w,
        ));
    } else {
        assert(k * w == (n - 1) * w);
        assert(ref_bytes(refs, w).subrange(k * w, (k + 1) * w) =~= be_bytes(refs.last(), w));
    }
}

/// References laid out at `p` read back as themselves when each fits in
/// `w` bytes.
pub(crate) proof fn lemma_refs_at(d: Seq<u8>, p: int, refs: Seq<nat>, w: nat)
    requires
        0 <= p,
        p + refs.len() * w <= d.len(),
        d.subrange(p, p + refs.len() * w) == ref_bytes(refs, w),
        forall|k: int| 0 <= k < refs.len() ==> #[trigger] refs[k] < pow256(w),
    ensures
        refs_at(d, p, refs.len(), w) == refs,
{
    crate::plist::encode::lemma_ref_bytes_len(refs, w);
    assert forall|k: int| 0 <= k < refs.len() implies #[trigger] refs_at(
        d,
        p,
        refs.len(),
        w,
    )[k] == refs[k] by {
        lemma_ref_bytes_part(refs, w, k);
        lemma_sub(d, p, ref_bytes(refs, w), k * w, (k + 1) * w);
        assert(p + k * w == p + k * w);
        lemma_be_roundtrip(refs[k], w);
    }
    assert(refs_at(d, p, refs.len(), w) =~= refs);
}

/// Where each value's objects begin: after those of the values before it.
pub(crate) proof fn lemma_list_starts(s: Seq<crate::plist::decode::PlistView>, b: nat)
    ensures
        list_starts(s, b).len() == s.len(),
        forall|k: int|
            0 <= k < s.len() ==> #[trigger] list_starts(s, b)[k] == b + list_count(s.take(k)),
    decreases s.len(),
{
    if s.len() > 0 {
        lemma_list_starts(s.drop_last(), b);
        assert forall|k: int| 0 <= k < s.len() implies #[trigger] list_starts(s, b)[k] == b
            + list_count(s.take(k)) by {
            if k < s.len() - 1 {
                assert(s.drop_last().take(k) =~= s.take(k));
            } else {
                assert(s.drop_last() =~= s.take(k));
            }
        }
    }
}

/// Where each entry value's objects begin: after those of the values
/// before it.
pub(crate) proof fn lemma_entry_starts(
    e: Seq<(Seq<char>, crate::plist::decode::PlistView)>,
    b: nat,
)
    ensures
        entry_starts(e, b).len() == e.len(),
        forall|k: int|
            0 <= k < e.len() ==> #[trigger] entry_starts(e, b)[k] == b + entries_count(e.take(k)),
    decreases e.len(),
{
    if e.len() > 0 {
        lemma_entry_starts(e.drop_last(), b);
        assert forall|k: int| 0 <= k < e.len() implies #[trigger] entry_starts(e, b)[k] == b
            + entries_count(e.take(k)) by {
            if k < e.len() - 1 {
                assert(e.drop_last().take(k) =~= e.take(k));
            } else {
                assert(e.drop_last() =~= e.take(k));
            }
        }
    }
}

/// Each part stands in the joined bytes after the parts before it.
pub(crate) proof fn lemma_join_part(parts: Seq<Seq<u8>>, k: int)
    requires
        0 <= k < parts.len(),
    ensures
        join(parts.take(k)).len() + parts[k].len() <= join(parts).len(),
        join(parts).subrange(
            join(parts.take(k)).len() as int,
            (join(parts.take(k)).len() + parts[k].len()) as int,
        ) == parts[k],
{
    lemma_join_take(parts, k);
    crate::plist::encode::lemma_join_prefix_len(parts, k + 1);
    let pre = join(parts.take(k + 1));
    let all = join(parts);
    // The prefix of the joined bytes is the join of the prefix.
    lemma_join_prefix_is_prefix(parts, k + 1);
    assert(all.subrange(0, pre.len() as int) == pre);
    assert(all.subrange(join(parts.take(k)).len() as int, pre.len() as int) =~= pre.subrange(
        join(parts.take(k)).len() as int,
        pre.len() as int,
    ));
    assert(pre.subrange(join(parts.take(k)).len() as int, pre.len() as int) =~= parts[k]);
}

/// The join of a prefix of the parts is a prefix of their join.
pub(crate) proof fn lemma_join_prefix_is_prefix(parts: Seq<Seq<u8>>, k: int)
    requires
        0 <= k <= parts.len(),
    ensures
        join(parts.take(k)).len() <= join(parts).len(),
        join(parts).subrange(0, join(parts.take(k)).len() as int) == join(parts.take(k)),
    decreases parts.len() - k,
{
    if k == parts.len() {
        assert(parts.take(k) =~= parts);
        assert(join(parts).subrange(0, join(parts).len() as int) =~= join(parts));
    } else {
        lemma_join_prefix_is_prefix(parts, k + 1);
        lemma_join_take(parts, k);
        let a = join(parts.take(k));
        let b = join(parts.take(k + 1));
        assert(join(parts).subrange(0, a.len() as int) =~= join(parts).subrange(
            0,
            b.len() as int,
        ).subrange(0, a.len() as int));
        assert(b.subrange(0, a.len() as int) =~= a);
    }
}

/// A count head read back: the marker's type, and the count with where
/// the payload begins.
pub(crate) proof fn lemma_count_of(d: Seq<u8>, limit: int, off: int, hi: nat, n: nat, x: Seq<u8>)
    requires
        hi < 16,
        n < 0x1_0000_0000_0000_0000,
        0 <= off,
        off + x.len() <= limit <= d.len(),
        d.subrange(off, off + x.len()) == x,
        count_head(hi, n).len() <= x.len(),
        x.subrange(0, count_head(hi, n).len() as int) == count_head(hi, n),
    ensures
        d[off] / 16 == hi,
        count_of(d, limit, off, (d[off] % 16) as int) == Ok::<(nat, int), crate::plist::decode::DecodeErrorView>(
            (n, off + count_head(hi, n).len()),
        ),
{
    let h = count_head(hi, n);
    lemma_sub(d, off, x, 0, h.len() as int);
    assert(x[0] == h[0]);
    if n < 15 {
        assert(d[off] == (hi * 16 + n) as u8);
    } else {
        lemma_min_width(n);
        lemma_be_roundtrip(n, min_width(n));
        assert(h.len() == 2 + min_width(n));
        lemma_sub(d, off, x, 1, h.len() as int);
        assert(d[off + 1] == h[1]);
        assert(d.subrange(off + 2, off + 2 + min_width(n)) =~= h.subrange(
            2,
            2 + min_width(n) as int,
        ));
        assert(h.subrange(2, 2 + min_width(n) as int) =~= be_bytes(n, min_width(n)));
    }
}

/// An integer object of a number below 2^63 reads back as that number.
pub(crate) proof fn lemma_uint_at(d: Seq<u8>, limit: int, off: int, i: i64)
    requires
        i >= 0,
        0 <= off,
        off + uint_object(i as nat).len() <= limit <= d.len(),
        d.subrange(off, off + uint_object(i as nat).len()) == uint_object(i as nat),
    ensures
        scalar_at(d, limit, off, d[off]) == Some(
            Ok::<PlistView, DecodeErrorView>(PlistView::Integer(i)),
        ),
{
    let n = i as nat;
    let x = uint_object(n);
    lemma_min_width(n);
    lemma_be_roundtrip(n, min_width(n));
    lemma_sub(d, off, x, 0, 1);
    lemma_sub(d, off, x, 1, x.len() as int);
    assert(x.subrange(1, x.len() as int) =~= be_bytes(n, min_width(n)));
    assert(d[off] == (0x10 + width_code(n)) as u8);
}

/// The object of a value that is not a container reads back as the value.
pub(crate) proof fn lemma_scalar_at(d: Seq<u8>, limit: int, off: int, v: PlistView)
    requires
        !(v is Array),
        !(v is Dictionary),
        texts_round(v),
        d.len() < 0x1_0000_0000_0000_0000,
        0 <= off,
        off + scalar_object(v).len() <= limit <= d.len(),
        d.subrange(off, off + scalar_object(v).len()) == scalar_object(v),
    ensures
        scalar_at(d, limit, off, d[off]) == Some(Ok::<PlistView, DecodeErrorView>(v)),
{
    let x = scalar_object(v);
    lemma_pow256_values();
    match v {
        PlistView::Boolean(b) => {
            lemma_sub(d, off, x, 0, 1);
        },
        PlistView::Integer(i) => {
            if i >= 0 {
                lemma_uint_at(d, limit, off, i);
            } else {
                let n = (i + 0x1_0000_0000_0000_0000) as nat;
                lemma_be_roundtrip(n, 8);
                lemma_sub(d, off, x, 0, 1);
                lemma_sub(d, off, x, 1, 9);
                assert(x.subrange(1, 9) =~= be_bytes(n, 8));
                assert(signed64(n) == i);
            }
        },
        PlistView::UnsignedInteger(u) => {
            lemma_be_roundtrip(0, 8);
            lemma_be_roundtrip(u as nat, 8);
            lemma_sub(d, off, x, 0, 1);
            lemma_sub(d, off, x, 1, 9);
            lemma_sub(d, off, x, 9, 17);
            assert(x.subrange(1, 9) =~= be_bytes(0, 8));
            assert(x.subrange(9, 17) =~= be_bytes(u as nat, 8));
        },
        PlistView::Real(b) => {
            lemma_be_roundtrip(b as nat, 8);
            lemma_sub(d, off, x, 0, 1);
            lemma_sub(d, off, x, 1, 9);
            assert(x.subrange(1, 9) =~= be_bytes(b as nat, 8));
        },
        PlistView::Real32(b) => {
            lemma_be_roundtrip(b as nat, 4);
            lemma_sub(d, off, x, 0, 1);
            lemma_sub(d, off, x, 1, 5);
            assert(x.subrange(1, 5) =~= be_bytes(b as nat, 4));
        },
        PlistView::Date(b) => {
            lemma_be_roundtrip(b as nat, 8);
            lemma_sub(d, off, x, 0, 1);
            lemma_sub(d, off, x, 1, 9);
            assert(x.subrange(1, 9) =~= be_bytes(b as nat, 8));
        },
        PlistView::Uid(u) => {
            lemma_be_roundtrip(u as nat, 8);
            lemma_sub(d, off, x, 0, 1);
            lemma_sub(d, off, x, 1, 9);
            assert(x.subrange(1, 9) =~= be_bytes(u as nat, 8));
        },
        PlistView::Data(b) => {
            let h = count_head(4, b.len());
            assert(x.subrange(0, h.len() as int) =~= h);
            lemma_count_of(d, limit, off, 4, b.len(), x);
            lemma_sub(d, off, x, h.len() as int, x.len() as int);
            assert(x.subrange(h.len() as int, x.len() as int) =~= b);
        },
        PlistView::String(s) => {
            lemma_text_at(d, limit, off, s);
        },
        _ => {},
    }
}

/// A string object reads back as its text.
pub(crate) proof fn lemma_text_at(d: Seq<u8>, limit: int, off: int, s: Seq<char>)
    requires
        text_round(s),
        d.len() < 0x1_0000_0000_0000_0000,
        0 <= off,
        off + text_object(s).len() <= limit <= d.len(),
        d.subrange(off, off + text_object(s).len()) == text_object(s),
    ensures
        scalar_at(d, limit, off, d[off]) == Some(
            Ok::<PlistView, DecodeErrorView>(PlistView::String(s)),
        ),
{
    let x = text_object(s);
    if is_ascii_chars(s) {
        let bytes = encode_utf8(s);
        vstd::utf8::is_ascii_chars_encode_utf8(s);
        vstd::utf8::encode_utf8_valid_utf8(s);
        vstd::utf8::encode_utf8_decode_utf8(s);
        let h = count_head(5, s.len());
        assert(x.subrange(0, h.len() as int) =~= h);
        lemma_count_of(d, limit, off, 5, s.len(), x);
        lemma_sub(d, off, x, h.len() as int, x.len() as int);
        assert(x.subrange(h.len() as int, x.len() as int) =~= bytes);
        assert forall|i: int| 0 <= i < bytes.len() implies #[trigger] bytes[i] < 128 by {
            assert(s[i] as u8 == bytes[i]);
            assert('\0' <= s[i] <= '\u{7f}');
        }
    } else {
        let u = utf16_of(s);
        let bytes = utf16_bytes(u);
        let h = count_head(6, u.len());
        assert(x.subrange(0, h.len() as int) =~= h);
        lemma_count_of(d, limit, off, 6, u.len(), x);
        lemma_sub(d, off, x, h.len() as int, x.len() as int);
        assert(x.subrange(h.len() as int, x.len() as int) =~= bytes);
        assert forall|k: int| 0 <= k < u.len() implies #[trigger] utf16_units(bytes, u.len())[k]
            == u[k] by {
            assert((2 * k) % 2 == 0 && (2 * k) / 2 == k) by (nonlinear_arith);
            assert((2 * k + 1) % 2 == 1 && (2 * k + 1) / 2 == k) by (nonlinear_arith);
            let hi = bytes[2 * k];
            let lo = bytes[2 * k + 1];
            assert(hi == (u[k] / 256) as u8);
            assert(lo == (u[k] % 256) as u8);
            assert(hi as nat * 256 + lo as nat == u[k] as nat);
        }
        assert(utf16_units(bytes, u.len()) =~= u);
    }
}

/// Whether object `i` of `d` (by the trailer `tr`) is the bytes `x`,
/// inside the object area.
pub open spec fn object_is(d: Seq<u8>, tr: TrailerView, i: nat, x: Seq<u8>) -> bool {
    &&& i < tr.num_objects
    &&& 8 <= obj_offset(d, tr, i)
    &&& obj_offset(d, tr, i) + x.len() <= tr.table_start
    &&& tr.table_start <= d.len()
    &&& d.subrange(obj_offset(d, tr, i) as int, (obj_offset(d, tr, i) + x.len()) as int) == x
}

/// Whether the objects of `d` from index `b` on are `xs`.
pub open spec fn placed(d: Seq<u8>, tr: TrailerView, b: nat, xs: Seq<Seq<u8>>) -> bool {
    forall|k: int| 0 <= k < xs.len() ==> #[trigger] object_is(d, tr, (b + k) as nat, xs[k])
}

/// Objects placed one run after another are each run placed.
pub(crate) proof fn lemma_placed_split(
    d: Seq<u8>,
    tr: TrailerView,
    b: nat,
    xs: Seq<Seq<u8>>,
    ys: Seq<Seq<u8>>,
)
    requires
        placed(d, tr, b, xs + ys),
    ensures
        placed(d, tr, b, xs),
        placed(d, tr, b + xs.len(), ys),
{
    let all = xs + ys;
    assert forall|k: int| 0 <= k < xs.len() implies #[trigger] object_is(
        d,
        tr,
        (b + k) as nat,
        xs[k],
    ) by {
        assert(all[k] == xs[k]);
        assert(object_is(d, tr, (b + k) as nat, all[k]));
    }
    assert forall|k: int| 0 <= k < ys.len() implies #[trigger] object_is(
        d,
        tr,
        (b + xs.len() + k) as nat,
        ys[k],
    ) by {
        let j = xs.len() + k;
        assert(all[j] == ys[k]);
        assert(object_is(d, tr, (b + j) as nat, all[j]));
        assert((b + j) as nat == (b + xs.len() + k) as nat);
    }
}

/// The values of the entries, in order.
pub open spec fn values_of(e: Seq<(Seq<char>, PlistView)>) -> Seq<PlistView> {
    Seq::new(e.len(), |i: int| e[i].1)
}

/// The texts of the entries' keys, as string values, in order.
pub open spec fn keys_of(e: Seq<(Seq<char>, PlistView)>) -> Seq<PlistView> {
    Seq::new(e.len(), |i: int| PlistView::String(e[i].0))
}

/// An object that is not a container, at index `b`, reads back as its
/// value.
pub(crate) proof fn lemma_parse_scalar(
    d: Seq<u8>,
    tr: TrailerView,
    v: PlistView,
    b: nat,
    stack: Seq<nat>,
)
    requires
        !(v is Array),
        !(v is Dictionary),
        texts_round(v),
        d.len() < 0x1_0000_0000_0000_0000,
        object_is(d, tr, b, scalar_object(v)),
        scalar_object(v).len() >= 1,
        forall|j: int| 0 <= j < stack.len() ==> stack[j] < b,
        stack.len() < MAX_DEPTH,
    ensures
        parse_obj(d, tr, b, stack) == Ok::<PlistView, DecodeErrorView>(v),
{
    let off = obj_offset(d, tr, b);
    assert(!stack.contains(b));
    lemma_scalar_at(d, tr.table_start as int, off as int, v);
}

/// The keys of entries, placed from index `b` on, read back in order
/// (the first `k` of them).
pub(crate) proof fn lemma_parse_keys(
    d: Seq<u8>,
    tr: TrailerView,
    e: Seq<(Seq<char>, PlistView)>,
    k: nat,
    b: nat,
    stack: Seq<nat>,
)
    requires
        k <= e.len(),
        d.len() < 0x1_0000_0000_0000_0000,
        placed(d, tr, b, key_objects(e)),
        forall|i: int| 0 <= i < e.len() ==> text_round(#[trigger] e[i].0),
        forall|j: int| 0 <= j < stack.len() ==> stack[j] < b,
        k > 0 ==> stack.len() < MAX_DEPTH,
    ensures
        parse_list(d, tr, indices_from(b, k), stack) == Ok::<Seq<PlistView>, DecodeErrorView>(
            keys_of(e).take(k as int),
        ),
    decreases k,
{
    if k == 0 {
        assert(keys_of(e).take(0) =~= Seq::<PlistView>::empty());
    } else {
        let i = (k - 1) as int;
        lemma_parse_keys(d, tr, e, (k - 1) as nat, b, stack);
        assert(indices_from(b, k).drop_last() =~= indices_from(b, (k - 1) as nat));
        let s = e[i].0;
        assert(object_is(d, tr, (b + i) as nat, key_objects(e)[i]));
        assert(key_objects(e)[i] == scalar_object(PlistView::String(s)));
        crate::plist::encode::lemma_count_head_nonempty(5, s.len());
        crate::plist::encode::lemma_count_head_nonempty(6, utf16_of(s).len());
        lemma_parse_scalar(d, tr, PlistView::String(s), (b + i) as nat, stack);
        assert(keys_of(e).take(k as int) =~= keys_of(e).take(i).push(PlistView::String(s)));
    }
}

/// A value placed at index `b` reads back as itself, when it nests
/// shallowly enough below the objects on `stack` and its references fit.
pub(crate) proof fn lemma_parse_value(
    d: Seq<u8>,
    tr: TrailerView,
    v: PlistView,
    b: nat,
    stack: Seq<nat>,
)
    requires
        1 <= tr.ref_size,
        d.len() < 0x1_0000_0000_0000_0000,
        placed(d, tr, b, objects(v, b, tr.ref_size)),
        b + count(v) <= pow256(tr.ref_size),
        forall|j: int| 0 <= j < stack.len() ==> stack[j] < b,
        stack.len() + height(v) <= MAX_DEPTH,
        texts_round(v),
    ensures
        parse_obj(d, tr, b, stack) == Ok::<PlistView, DecodeErrorView>(v),
    decreases v, 0nat,
{
    match v {
        PlistView::Array(a) => {
            lemma_parse_array(d, tr, a, b, stack);
        },
        PlistView::Dictionary(e) => {
            lemma_parse_dict(d, tr, e, b, stack);
        },
        _ => {
            let o = objects(v, b, tr.ref_size);
            lemma_objects_nonempty(v, b, tr.ref_size);
            assert(object_is(d, tr, (b + 0) as nat, o[0]));
            lemma_parse_scalar(d, tr, v, b, stack);
        },
    }
}

/// An array placed at index `b` reads back as itself.
pub(crate) proof fn lemma_parse_array(
    d: Seq<u8>,
    tr: TrailerView,
    a: Seq<PlistView>,
    b: nat,
    stack: Seq<nat>,
)
    requires
        1 <= tr.ref_size,
        d.len() < 0x1_0000_0000_0000_0000,
        placed(d, tr, b, objects(PlistView::Array(a), b, tr.ref_size)),
        b + count(PlistView::Array(a)) <= pow256(tr.ref_size),
        forall|j: int| 0 <= j < stack.len() ==> stack[j] < b,
        stack.len() + height(PlistView::Array(a)) <= MAX_DEPTH,
        texts_round(PlistView::Array(a)),
    ensures
        parse_obj(d, tr, b, stack) == Ok::<PlistView, DecodeErrorView>(PlistView::Array(a)),
    decreases a, 2nat,
{
    let v = PlistView::Array(a);
    let w = tr.ref_size;
    let o = objects(v, b, w);
    lemma_objects_nonempty(v, b, w);
    assert(object_is(d, tr, (b + 0) as nat, o[0]));
    let x = o[0];
    let off = obj_offset(d, tr, b) as int;
    let limit = tr.table_start as int;
    assert(!stack.contains(b));
    lemma_sub(d, off, x, 0, x.len() as int);
    let n = a.len();
    let h = count_head(0xA, n);
    let starts = list_starts(a, b + 1);
    let rest = list_objects(a, b + 1, w);
    lemma_list_starts(a, b + 1);
    lemma_ref_bytes_len(starts, w);
    assert(x == h + ref_bytes(starts, w));
    assert(x.subrange(0, h.len() as int) =~= h);
    assert(n <= n * w) by (nonlinear_arith)
        requires
            1 <= w,
    ;
    lemma_count_of(d, limit, off, 0xA, n, x);
    let p = off + h.len();
    lemma_sub(d, off, x, h.len() as int, x.len() as int);
    assert(x.subrange(h.len() as int, x.len() as int) =~= ref_bytes(starts, w));
    assert forall|k: int| 0 <= k < starts.len() implies #[trigger] starts[k] < pow256(w) by {
        lemma_list_count_prefix(a, k);
    }
    lemma_refs_at(d, p, starts, w);
    assert(o =~= seq![x] + rest);
    lemma_placed_split(d, tr, b, seq![x], rest);
    lemma_parse_values(d, tr, a, b + 1, stack.push(b));
}

/// A dictionary placed at index `b` reads back as itself.
pub(crate) proof fn lemma_parse_dict(
    d: Seq<u8>,
    tr: TrailerView,
    e: Seq<(Seq<char>, PlistView)>,
    b: nat,
    stack: Seq<nat>,
)
    requires
        1 <= tr.ref_size,
        d.len() < 0x1_0000_0000_0000_0000,
        placed(d, tr, b, objects(PlistView::Dictionary(e), b, tr.ref_size)),
        b + count(PlistView::Dictionary(e)) <= pow256(tr.ref_size),
        forall|j: int| 0 <= j < stack.len() ==> stack[j] < b,
        stack.len() + height(PlistView::Dictionary(e)) <= MAX_DEPTH,
        texts_round(PlistView::Dictionary(e)),
    ensures
        parse_obj(d, tr, b, stack) == Ok::<PlistView, DecodeErrorView>(PlistView::Dictionary(e)),
    decreases e, 2nat,
{
    let v = PlistView::Dictionary(e);
    let w = tr.ref_size;
    let o = objects(v, b, w);
    lemma_objects_nonempty(v, b, w);
    assert(object_is(d, tr, (b + 0) as nat, o[0]));
    let x = o[0];
    let off = obj_offset(d, tr, b) as int;
    let limit = tr.table_start as int;
    assert(!stack.contains(b));
    lemma_sub(d, off, x, 0, x.len() as int);
    let n = e.len();
    let h = count_head(0xD, n);
    let keys = indices_from(b + 1, n);
    let starts = entry_starts(e, b + 1 + n);
    let ko = key_objects(e);
    let eo = entry_objects(e, b + 1 + n, w);
    lemma_entry_starts(e, b + 1 + n);
    lemma_ref_bytes_len(keys, w);
    lemma_ref_bytes_len(starts, w);
    assert(x == h + ref_bytes(keys, w) + ref_bytes(starts, w));
    assert(x.subrange(0, h.len() as int) =~= h);
    assert(n <= n * w) by (nonlinear_arith)
        requires
            1 <= w,
    ;
    lemma_count_of(d, limit, off, 0xD, n, x);
    let p = off + h.len();
    lemma_sub(d, off, x, h.len() as int, (h.len() + n * w) as int);
    assert(x.subrange(h.len() as int, (h.len() + n * w) as int) =~= ref_bytes(keys, w));
    lemma_sub(d, off, x, (h.len() + n * w) as int, x.len() as int);
    assert(x.subrange((h.len() + n * w) as int, x.len() as int) =~= ref_bytes(starts, w));
    assert(n <= entries_count(e) + n);
    assert forall|k: int| 0 <= k < keys.len() implies #[trigger] keys[k] < pow256(w) by {
    }
    assert forall|k: int| 0 <= k < starts.len() implies #[trigger] starts[k] < pow256(w) by {
        lemma_entries_count_prefix(e, k);
    }
    lemma_refs_at(d, p, keys, w);
    assert(2 * n * w == n * w + n * w) by (nonlinear_arith);
    lemma_refs_at(d, p + n * w, starts, w);
    assert(o =~= seq![x] + ko + eo);
    lemma_placed_split(d, tr, b, seq![x] + ko, eo);
    lemma_placed_split(d, tr, b, seq![x], ko);
    let inner = stack.push(b);
    lemma_entries_texts(e);
    if n > 0 {
        lemma_entries_height_bound(e, 0);
    }
    lemma_parse_keys(d, tr, e, n, b + 1, inner);
    assert(keys_of(e).take(n as int) =~= keys_of(e));
    lemma_parse_entry_values(d, tr, e, b + 1 + n, inner);
    let ks = keys_of(e);
    let vs = values_of(e);
    assert forall|i: int| 0 <= i < ks.len() implies (#[trigger] key_text(ks[i])) is Some by {
    }
    assert(all_text(ks));
    assert(Seq::new(n, |i: int| (key_text(ks[i]).unwrap(), vs[i])) =~= e);
}

/// The texts of entries' keys each come back from their encoding.
pub(crate) proof fn lemma_entries_texts(e: Seq<(Seq<char>, PlistView)>)
    requires
        entries_texts_round(e),
    ensures
        forall|i: int| 0 <= i < e.len() ==> text_round(#[trigger] e[i].0),
        forall|i: int| 0 <= i < e.len() ==> texts_round(#[trigger] e[i].1),
    decreases e.len(),
{
    if e.len() > 0 {
        lemma_entries_texts(e.drop_last());
        assert forall|i: int| 0 <= i < e.len() implies text_round(#[trigger] e[i].0) by {
            if i < e.len() - 1 {
                assert(e.drop_last()[i] == e[i]);
            }
        }
        assert forall|i: int| 0 <= i < e.len() implies texts_round(#[trigger] e[i].1) by {
            if i < e.len() - 1 {
                assert(e.drop_last()[i] == e[i]);
            }
        }
    }
}

/// Values placed from index `b` on read back in order.
pub(crate) proof fn lemma_parse_values(
    d: Seq<u8>,
    tr: TrailerView,
    s: Seq<PlistView>,
    b: nat,
    stack: Seq<nat>,
)
    requires
        1 <= tr.ref_size,
        d.len() < 0x1_0000_0000_0000_0000,
        placed(d, tr, b, list_objects(s, b, tr.ref_size)),
        b + list_count(s) <= pow256(tr.ref_size),
        forall|j: int| 0 <= j < stack.len() ==> stack[j] < b,
        stack.len() + list_height(s) <= MAX_DEPTH,
        list_texts_round(s),
    ensures
        parse_list(d, tr, list_starts(s, b), stack) == Ok::<Seq<PlistView>, DecodeErrorView>(s),
    decreases s, 1nat,
{
    let w = tr.ref_size;
    if s.len() == 0 {
        assert(list_starts(s, b) =~= Seq::<nat>::empty());
        assert(s =~= Seq::<PlistView>::empty());
    } else {
        let pre = s.drop_last();
        let l = s.last();
        let lb = b + list_count(pre);
        lemma_list_objects_len(pre, b, w);
        lemma_placed_split(d, tr, b, list_objects(pre, b, w), objects(l, lb, w));
        lemma_parse_values(d, tr, pre, b, stack);
        lemma_parse_value(d, tr, l, lb, stack);
        assert(list_starts(s, b).drop_last() =~= list_starts(pre, b));
        assert(s =~= pre.push(l));
    }
}

/// The values of entries, placed from index `b` on, read back in order.
pub(crate) proof fn lemma_parse_entry_values(
    d: Seq<u8>,
    tr: TrailerView,
    e: Seq<(Seq<char>, PlistView)>,
    b: nat,
    stack: Seq<nat>,
)
    requires
        1 <= tr.ref_size,
        d.len() < 0x1_0000_0000_0000_0000,
        placed(d, tr, b, entry_objects(e, b, tr.ref_size)),
        b + entries_count(e) <= pow256(tr.ref_size),
        forall|j: int| 0 <= j < stack.len() ==> stack[j] < b,
        stack.len() + entries_height(e) <= MAX_DEPTH,
        entries_texts_round(e),
    ensures
        parse_list(d, tr, entry_starts(e, b), stack) == Ok::<Seq<PlistView>, DecodeErrorView>(
            values_of(e),
        ),
    decreases e, 1nat,
{
    let w = tr.ref_size;
    if e.len() == 0 {
        assert(entry_starts(e, b) =~= Seq::<nat>::empty());
        assert(values_of(e) =~= Seq::<PlistView>::empty());
    } else {
        let pre = e.drop_last();
        let l = e.last().1;
        let lb = b + entries_count(pre);
        lemma_entry_objects_len(pre, b, w);
        lemma_placed_split(d, tr, b, entry_objects(pre, b, w), objects(l, lb, w));
        lemma_parse_entry_values(d, tr, pre, b, stack);
        lemma_parse_value(d, tr, l, lb, stack);
        assert(entry_starts(e, b).drop_last() =~= entry_starts(pre, b));
        assert(values_of(e) =~= values_of(pre).push(l));
    }
}

/// Decoding gives back what encoding wrote: for every value that nests at
/// most `MAX_DEPTH` deep, whose texts come back from their UTF-16 form
/// where they are not ASCII, and whose encoding is shorter than 2^64
/// bytes, `spec_decode(spec_encode(v))` is `v`.
pub proof fn lemma_encode_decode(v: PlistView)
    requires
        height(v) <= MAX_DEPTH,
        texts_round(v),
        spec_encode(v).len() < 0x1_0000_0000_0000_0000,
    ensures
        spec_decode(spec_encode(v)) == Ok::<PlistView, DecodeErrorView>(v),
{
    let n = count(v);
    let w = min_width(n);
    let o = objects(v, 0, w);
    let body = join(o);
    let ts = 8 + body.len();
    let osz = min_width(ts);
    let table = offset_table(o, osz);
    let tb = trailer_bytes(osz, w, n, ts);
    let d = spec_encode(v);
    lemma_encode_len(v);
    lemma_encode_len_bound(v);
    lemma_objects_len(v, 0, w);
    lemma_objects_nonempty(v, 0, w);
    lemma_min_width(n);
    lemma_min_width(ts);
    lemma_ref_bytes_len(offsets(o), osz);
    assert(d == magic() + body + table + tb);
    let t = d.len() - 32;
    assert(t == ts + n * osz);
    // The header.
    assert(d.subrange(0, 8) =~= magic());
    // The trailer.
    lemma_pow256_values();
    lemma_be_roundtrip(n, 8);
    lemma_be_roundtrip(0, 8);
    lemma_be_roundtrip(ts, 8);
    assert(d.subrange(t, d.len() as int) =~= tb);
    lemma_sub(d, t, tb, 8, 16);
    lemma_sub(d, t, tb, 16, 24);
    lemma_sub(d, t, tb, 24, 32);
    lemma_sub(d, t, tb, 6, 8);
    assert(tb.subrange(8, 16) =~= be_bytes(n, 8));
    assert(tb.subrange(16, 24) =~= be_bytes(0, 8));
    assert(tb.subrange(24, 32) =~= be_bytes(ts, 8));
    let tr = spec_trailer(d);
    assert(tr.offset_size == osz);
    assert(tr.ref_size == w);
    assert(tr.num_objects == n);
    assert(tr.top_object == 0);
    assert(tr.table_start == ts);
    assert(trailer_ok(d, tr));
    // Each object where the offset table says.
    assert(d.subrange(8, ts as int) =~= body);
    assert(d.subrange(ts as int, t) =~= table);
    assert forall|k: int| 0 <= k < o.len() implies #[trigger] object_is(
        d,
        tr,
        (0 + k) as nat,
        o[k],
    ) by {
        let off = offsets(o)[k];
        lemma_join_part(o, k);
        lemma_join_prefix_is_prefix(o, k);
        lemma_ref_bytes_part(offsets(o), osz, k);
        lemma_sub(d, ts as int, table, k * osz, (k + 1) * osz);
        assert(o[k].len() >= 1);
        assert(off < ts);
        lemma_be_roundtrip(off, osz);
        assert(obj_offset(d, tr, k as nat) == off);
        lemma_sub(d, 8, body, (off - 8) as int, (off - 8 + o[k].len()) as int);
    }
    assert(placed(d, tr, 0, o));
    lemma_parse_value(d, tr, v, 0, Seq::empty());
}

} // verus!
