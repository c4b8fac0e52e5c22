//! Decoding of binary property lists. A `bplist00` file is an 8-byte
//! header, the objects, a table of object offsets and a 32-byte trailer;
//! the trailer gives the width of the offsets and of the object references,
//! the number of objects, the top object and where the offset table starts.
//! Each object begins with a marker byte: its high nibble is the type, its
//! low nibble a size or a count (15: a count follows as an integer object).
use vstd::prelude::*;
use vstd::utf8::{decode_utf8, valid_utf8};
use crate::bytes::{be_value, copy_bytes, lemma_be_value_bound, read_be};
use crate::text::str_from_utf8;

verus! {

/// How deeply containers may nest.
pub const MAX_DEPTH: usize = 32;

/// The length of the header.
pub const HEADER_LEN: usize = 8;

/// The length of the trailer.
pub const TRAILER_LEN: usize = 32;

/// A property-list value. Floating-point values are kept as their IEEE 754
/// bits.
#[derive(Debug)]
pub enum PlistValue {
    /// Boolean value
    Boolean(bool),
    /// Signed integer
    Integer(i64),
    /// Unsigned integer too large for `i64`
    UnsignedInteger(u64),
    /// Double-precision real (its bits)
    Real(u64),
    /// Single-precision real (its bits)
    Real32(u32),
    /// Date: seconds since 2001-01-01 as a double (its bits)
    Date(u64),
    /// Text
    String(String),
    /// Binary data
    Data(Vec<u8>),
    /// Array of values
    Array(Vec<PlistValue>),
    /// Dictionary entries, in order
    Dictionary(Vec<(String, PlistValue)>),
    /// UID reference
    Uid(u64),
}

/// A property-list value as the contracts see it.
pub enum PlistView {
    Boolean(bool),
    Integer(i64),
    UnsignedInteger(u64),
    Real(u64),
    Real32(u32),
    Date(u64),
    String(Seq<char>),
    Data(Seq<u8>),
    Array(Seq<PlistView>),
    Dictionary(Seq<(Seq<char>, PlistView)>),
    Uid(u64),
}

/// The view of a value.
pub open spec fn view_of(v: PlistValue) -> PlistView
    decreases v, 0nat,
{
    match v {
        PlistValue::Boolean(b) => PlistView::Boolean(b),
        PlistValue::Integer(i) => PlistView::Integer(i),
        PlistValue::UnsignedInteger(u) => PlistView::UnsignedInteger(u),
        PlistValue::Real(b) => PlistView::Real(b),
        PlistValue::Real32(b) => PlistView::Real32(b),
        PlistValue::Date(b) => PlistView::Date(b),
        PlistValue::String(s) => PlistView::String(s@),
        PlistValue::Data(d) => PlistView::Data(d@),
        PlistValue::Array(a) => PlistView::Array(views_of(a@)),
        PlistValue::Dictionary(d) => PlistView::Dictionary(entries_of(d@)),
        PlistValue::Uid(u) => PlistView::Uid(u),
    }
}

/// The views of values, in order.
pub open spec fn views_of(s: Seq<PlistValue>) -> Seq<PlistView>
    decreases s, 1nat,
{
    if s.len() == 0 {
        Seq::empty()
    } else {
        views_of(s.drop_last()).push(view_of(s.last()))
    }
}

/// The views of dictionary entries, in order.
pub open spec fn entries_of(s: Seq<(String, PlistValue)>) -> Seq<(Seq<char>, PlistView)>
    decreases s, 1nat,
{
    if s.len() == 0 {
        Seq::empty()
    } else {
        entries_of(s.drop_last()).push((s.last().0@, view_of(s.last().1)))
    }
}

impl View for PlistValue {
    type V = PlistView;

    open spec fn view(&self) -> PlistView {
        view_of(*self)
    }
}

impl PlistValue {
    /// The boolean, if this is one.
    pub fn as_bool(&self) -> (r: Option<bool>)
        ensures
            r == (match self@ {
                PlistView::Boolean(b) => Some(b),
                _ => None::<bool>,
            }),
    {
        match self {
            PlistValue::Boolean(b) => Some(*b),
            _ => None,
        }
    }

    /// The value as an `i64`, if it is an integer that fits.
    pub fn as_i64(&self) -> (r: Option<i64>)
        ensures
            r == (match self@ {
                PlistView::Integer(i) => Some(i),
                PlistView::UnsignedInteger(u) => if u <= i64::MAX {
                    Some(u as i64)
                } else {
                    None::<i64>
                },
                _ => None::<i64>,
            }),
    {
        match self {
            PlistValue::Integer(i) => Some(*i),
            PlistValue::UnsignedInteger(u) => if *u <= i64::MAX as u64 {
                Some(*u as i64)
            } else {
                None
            },
            _ => None,
        }
    }

    /// The value as a `u64`, if it is an integer that fits.
    pub fn as_u64(&self) -> (r: Option<u64>)
        ensures
            r == (match self@ {
                PlistView::Integer(i) => if i >= 0 {
                    Some(i as u64)
                } else {
                    None::<u64>
                },
                PlistView::UnsignedInteger(u) => Some(u),
                _ => None::<u64>,
            }),
    {
        match self {
            PlistValue::Integer(i) => if *i >= 0 {
                Some(*i as u64)
            } else {
                None
            },
            PlistValue::UnsignedInteger(u) => Some(*u),
            _ => None,
        }
    }

    /// The text, if this is a string.
    pub fn as_str(&self) -> (r: Option<&str>)
        ensures
            r matches Some(t) ==> self@ == PlistView::String(t@),
            r is None ==> !(self@ is String),
    {
        match self {
            PlistValue::String(s) => Some(s.as_str()),
            _ => None,
        }
    }

    /// The bytes, if this is data.
    pub fn as_bytes(&self) -> (r: Option<&[u8]>)
        ensures
            r matches Some(b) ==> self@ == PlistView::Data(b@),
            r is None ==> !(self@ is Data),
    {
        match self {
            PlistValue::Data(d) => Some(d.as_slice()),
            _ => None,
        }
    }

    /// The elements, if this is an array.
    pub fn as_array(&self) -> (r: Option<&[PlistValue]>)
        ensures
            r matches Some(a) ==> self@ == PlistView::Array(views_of(a@)),
            r is None ==> !(self@ is Array),
    {
        match self {
            PlistValue::Array(a) => Some(a.as_slice()),
            _ => None,
        }
    }

    /// The entries, if this is a dictionary.
    pub fn as_dict(&self) -> (r: Option<&Vec<(String, PlistValue)>>)
        ensures
            r matches Some(d) ==> self@ == PlistView::Dictionary(entries_of(d@)),
            r is None ==> !(self@ is Dictionary),
    {
        match self {
            PlistValue::Dictionary(d) => Some(d),
            _ => None,
        }
    }

    /// Whether this is empty data.
    pub fn is_null(&self) -> (r: bool)
        ensures
            r == (self@ == PlistView::Data(Seq::empty())),
    {
        match self {
            PlistValue::Data(d) => {
                if d.len() == 0 {
                    assert(d@ =~= Seq::<u8>::empty());
                }
                d.len() == 0
            },
            _ => false,
        }
    }
}

/// Errors from decoding a binary property list.
#[derive(Debug, Clone, PartialEq, Eq)]
pub enum PlistDecodeError {
    /// The data ends before something that should be there.
    BufferTooSmall {
        /// Bytes needed
        needed: usize,
        /// Bytes there
        available: usize,
    },
    /// The first eight bytes are not `bplist00`.
    InvalidMagic(Vec<u8>),
    /// The trailer describes a layout that does not fit the data.
    InvalidTrailer,
    /// An object reference names no object.
    InvalidObjectRef(u64),
    /// An object's offset lies outside the object area.
    InvalidOffset(u64),
    /// A marker byte names no known type.
    InvalidObjectMarker(u8),
    /// A count that follows a marker is not an integer object.
    InvalidLength,
    /// A string's bytes are not text of its kind.
    InvalidString,
    /// A dictionary key is not a string.
    InvalidKey,
    /// An object contains itself.
    CircularReference,
    /// Containers nest more deeply than `MAX_DEPTH`.
    TooDeep,
}

/// A decoding error as the contracts see it.
pub enum DecodeErrorView {
    BufferTooSmall { needed: nat, available: nat },
    InvalidMagic(Seq<u8>),
    InvalidTrailer,
    InvalidObjectRef(nat),
    InvalidOffset(nat),
    InvalidObjectMarker(u8),
    InvalidLength,
    InvalidString,
    InvalidKey,
    CircularReference,
    TooDeep,
}

impl View for PlistDecodeError {
    type V = DecodeErrorView;

    open spec fn view(&self) -> DecodeErrorView {
        match self {
            PlistDecodeError::BufferTooSmall { needed, available } =>
                DecodeErrorView::BufferTooSmall {
                needed: *needed as nat,
                available: *available as nat,
            },
            PlistDecodeError::InvalidMagic(m) => DecodeErrorView::InvalidMagic(m@),
            PlistDecodeError::InvalidTrailer => DecodeErrorView::InvalidTrailer,
            PlistDecodeError::InvalidObjectRef(i) => DecodeErrorView::InvalidObjectRef(*i as nat),
            PlistDecodeError::InvalidOffset(o) => DecodeErrorView::InvalidOffset(*o as nat),
            PlistDecodeError::InvalidObjectMarker(m) => DecodeErrorView::InvalidObjectMarker(*m),
            PlistDecodeError::InvalidLength => DecodeErrorView::InvalidLength,
            PlistDecodeError::InvalidString => DecodeErrorView::InvalidString,
            PlistDecodeError::InvalidKey => DecodeErrorView::InvalidKey,
            PlistDecodeError::CircularReference => DecodeErrorView::CircularReference,
            PlistDecodeError::TooDeep => DecodeErrorView::TooDeep,
        }
    }
}

/// The header bytes, `bplist00`.
pub open spec fn magic() -> Seq<u8> {
    seq![98u8, 112u8, 108u8, 105u8, 115u8, 116u8, 48u8, 48u8]
}

/// What the trailer says.
pub struct TrailerView {
    pub offset_size: nat,
    pub ref_size: nat,
    pub num_objects: nat,
    pub top_object: nat,
    pub table_start: nat,
}

/// The trailer of data at least 32 bytes long.
pub open spec fn spec_trailer(d: Seq<u8>) -> TrailerView {
    let t = d.len() - 32;
    TrailerView {
        offset_size: d[t + 6] as nat,
        ref_size: d[t + 7] as nat,
        num_objects: be_value(d.subrange(t + 8, t + 16)),
        top_object: be_value(d.subrange(t + 16, t + 24)),
        table_start: be_value(d.subrange(t + 24, t + 32)),
    }
}

/// Whether a trailer fits the data: offsets and references of 1 to 8
/// bytes, at least one object, a top object among them, and an offset
/// table between the header and the trailer.
pub open spec fn trailer_ok(d: Seq<u8>, tr: TrailerView) -> bool {
    &&& 1 <= tr.offset_size <= 8
    &&& 1 <= tr.ref_size <= 8
    &&& tr.num_objects >= 1
    &&& tr.top_object < tr.num_objects
    &&& 8 <= tr.table_start
    &&& tr.table_start + tr.num_objects * tr.offset_size <= d.len() - 32
}

/// The offset of object `i`, from the offset table.
pub open spec fn obj_offset(d: Seq<u8>, tr: TrailerView, i: nat) -> nat {
    be_value(
        d.subrange(
            (tr.table_start + i * tr.offset_size) as int,
            (tr.table_start + (i + 1) * tr.offset_size) as int,
        ),
    )
}

/// 2^k bytes for k in 0..=3.
pub open spec fn width(k: nat) -> nat {
    if k == 0 {
        1
    } else if k == 1 {
        2
    } else if k == 2 {
        4
    } else {
        8
    }
}

/// The error for a read that would end at `needed` in an area of
/// `available` bytes (the end saturates at `usize::MAX`).
pub open spec fn too_small(needed: nat, available: nat) -> DecodeErrorView {
    DecodeErrorView::BufferTooSmall {
        needed: if needed > usize::MAX {
            usize::MAX as nat
        } else {
            needed
        },
        available,
    }
}

/// The count of an object whose marker at `off` has low nibble `lo`, and
/// where its payload starts: the nibble itself when below 15, otherwise
/// the integer object that follows the marker.
pub open spec fn count_of(d: Seq<u8>, limit: int, off: int, lo: int) -> Result<
    (nat, int),
    DecodeErrorView,
> {
    if lo < 15 {
        Ok((lo as nat, off + 1))
    } else if off + 2 > limit {
        Err(too_small((off + 2) as nat, limit as nat))
    } else {
        let m = d[off + 1];
        if m / 16 != 1 || m % 16 > 3 {
            Err(DecodeErrorView::InvalidLength)
        } else {
            let n = width((m % 16) as nat);
            if off + 2 + n > limit {
                Err(too_small((off + 2 + n) as nat, limit as nat))
            } else {
                Ok((be_value(d.subrange(off + 2, off + 2 + n)), off + 2 + n))
            }
        }
    }
}

/// The signed value of eight big-endian bytes.
pub open spec fn signed64(v: nat) -> i64 {
    if v >= 0x8000_0000_0000_0000 {
        (v - 0x1_0000_0000_0000_0000) as i64
    } else {
        v as i64
    }
}

/// What `String::from_utf16` gives for UTF-16 code units: the text they
/// encode, or `None` when they are not valid UTF-16.
pub uninterp spec fn utf16_text(units: Seq<u16>) -> Option<Seq<char>>;

/// `String::from_utf16`: the text of valid UTF-16, `None` otherwise.
#[verifier::external_body]
fn string_from_utf16(units: &[u16]) -> (r: Option<String>)
    ensures
        r matches Some(s) ==> utf16_text(units@) == Some(s@),
        r is None ==> utf16_text(units@) is None,
{
    String::from_utf16(units).ok()
}

/// Whether all bytes are ASCII.
pub open spec fn ascii_bytes(b: Seq<u8>) -> bool {
    forall|i: int| 0 <= i < b.len() ==> #[trigger] b[i] < 128
}

/// The big-endian UTF-16 code units of `2n` bytes.
pub open spec fn utf16_units(b: Seq<u8>, n: nat) -> Seq<u16> {
    Seq::new(n, |k: int| (b[2 * k] as nat * 256 + b[2 * k + 1] as nat) as u16)
}

/// The value of a non-container object whose marker `m` is at `off` in an
/// object area of `limit` bytes (`None` for arrays and dictionaries).
pub open spec fn scalar_at(d: Seq<u8>, limit: int, off: int, m: u8) -> Option<
    Result<PlistView, DecodeErrorView>,
> {
    let hi = m / 16;
    let lo = (m % 16) as int;
    if hi == 0 {
        Some(
            if m == 8 {
                Ok(PlistView::Boolean(false))
            } else if m == 9 {
                Ok(PlistView::Boolean(true))
            } else {
                Err(DecodeErrorView::InvalidObjectMarker(m))
            },
        )
    } else if hi == 1 {
        Some(
            if lo <= 3 {
                let n = width(lo as nat);
                if off + 1 + n > limit {
                    Err(too_small((off + 1 + n) as nat, limit as nat))
                } else {
                    let v = be_value(d.subrange(off + 1, off + 1 + n));
                    if lo == 3 {
                        Ok(PlistView::Integer(signed64(v)))
                    } else {
                        Ok(PlistView::Integer(v as i64))
                    }
                }
            } else if lo == 4 {
                if off + 17 > limit {
                    Err(too_small((off + 17) as nat, limit as nat))
                } else if be_value(d.subrange(off + 1, off + 9)) == 0 {
                    Ok(PlistView::UnsignedInteger(be_value(d.subrange(off + 9, off + 17)) as u64))
                } else {
                    Err(DecodeErrorView::InvalidObjectMarker(m))
                }
            } else {
                Err(DecodeErrorView::InvalidObjectMarker(m))
            },
        )
    } else if hi == 2 {
        Some(
            if lo == 2 {
                if off + 5 > limit {
                    Err(too_small((off + 5) as nat, limit as nat))
                } else {
                    Ok(PlistView::Real32(be_value(d.subrange(off + 1, off + 5)) as u32))
                }
            } else if lo == 3 {
                if off + 9 > limit {
                    Err(too_small((off + 9) as nat, limit as nat))
                } else {
                    Ok(PlistView::Real(be_value(d.subrange(off + 1, off + 9)) as u64))
                }
            } else {
                Err(DecodeErrorView::InvalidObjectMarker(m))
            },
        )
    } else if hi == 3 {
        Some(
            if m != 0x33 {
                Err(DecodeErrorView::InvalidObjectMarker(m))
            } else if off + 9 > limit {
                Err(too_small((off + 9) as nat, limit as nat))
            } else {
                Ok(PlistView::Date(be_value(d.subrange(off + 1, off + 9)) as u64))
            },
        )
    } else if hi == 4 || hi == 5 || hi == 6 {
        Some(
            match count_of(d, limit, off, lo) {
                Err(e) => Err(e),
                Ok(c) => {
                    let n = c.0;
                    let p = c.1;
                    let size = if hi == 6 {
                        2 * n
                    } else {
                        n
                    };
                    if p + size > limit {
                        Err(too_small((p + size) as nat, limit as nat))
                    } else {
                        let b = d.subrange(p, p + size);
                        if hi == 4 {
                            Ok(PlistView::Data(b))
                        } else if hi == 5 {
                            if ascii_bytes(b) && valid_utf8(b) {
                                Ok(PlistView::String(decode_utf8(b)))
                            } else {
                                Err(DecodeErrorView::InvalidString)
                            }
                        } else {
                            match utf16_text(utf16_units(b, n)) {
                                Some(s) => Ok(PlistView::String(s)),
                                None => Err(DecodeErrorView::InvalidString),
                            }
                        }
                    }
                },
            },
        )
    } else if hi == 8 {
        Some(
            if lo > 7 {
                Err(DecodeErrorView::InvalidObjectMarker(m))
            } else if off + 2 + lo > limit {
                Err(too_small((off + 2 + lo) as nat, limit as nat))
            } else {
                Ok(PlistView::Uid(be_value(d.subrange(off + 1, off + 2 + lo)) as u64))
            },
        )
    } else if hi == 0xA || hi == 0xD {
        None
    } else {
        Some(Err(DecodeErrorView::InvalidObjectMarker(m)))
    }
}

/// The references `d[p..]` holds: `n` of `w` bytes each.
pub open spec fn refs_at(d: Seq<u8>, p: int, n: nat, w: nat) -> Seq<nat> {
    Seq::new(n, |k: int| be_value(d.subrange(p + k * w, p + (k + 1) * w)))
}

/// The text of a key, when it is a string.
pub open spec fn key_text(v: PlistView) -> Option<Seq<char>> {
    match v {
        PlistView::String(s) => Some(s),
        _ => None,
    }
}

/// Whether every key is a string.
pub open spec fn all_text(ks: Seq<PlistView>) -> bool {
    forall|i: int| 0 <= i < ks.len() ==> (#[trigger] key_text(ks[i])) is Some
}

/// The value of object `idx`, decoded with `stack` holding the objects
/// that contain it (outermost first). A reference past the last object, an
/// object that contains itself, nesting deeper than `MAX_DEPTH` and an
/// offset outside the object area are errors; arrays decode their elements
/// in order, and dictionaries their keys, then their values, and then
/// require every key to be a string.
pub open spec fn parse_obj(d: Seq<u8>, tr: TrailerView, idx: nat, stack: Seq<nat>) -> Result<
    PlistView,
    DecodeErrorView,
>
    decreases MAX_DEPTH - stack.len(), 0nat,
{
    if idx >= tr.num_objects {
        Err(DecodeErrorView::InvalidObjectRef(idx))
    } else if stack.contains(idx) {
        Err(DecodeErrorView::CircularReference)
    } else if stack.len() >= MAX_DEPTH {
        Err(DecodeErrorView::TooDeep)
    } else {
        let off = obj_offset(d, tr, idx);
        let limit = tr.table_start as int;
        if off < 8 || off >= limit {
            Err(DecodeErrorView::InvalidOffset(off))
        } else {
            let m = d[off as int];
            match scalar_at(d, limit, off as int, m) {
                Some(r) => r,
                None => match count_of(d, limit, off as int, (m % 16) as int) {
                    Err(e) => Err(e),
                    Ok(c) => {
                        let n = c.0;
                        let p = c.1;
                        let w = tr.ref_size;
                        let inner = stack.push(idx);
                        if m / 16 == 0xA {
                            if p + n * w > limit {
                                Err(too_small((p + n * w) as nat, limit as nat))
                            } else {
                                match parse_list(d, tr, refs_at(d, p, n, w), inner) {
                                    Err(e) => Err(e),
                                    Ok(vs) => Ok(PlistView::Array(vs)),
                                }
                            }
                        } else {
                            if p + 2 * n * w > limit {
                                Err(too_small((p + 2 * n * w) as nat, limit as nat))
                            } else {
                                match parse_list(d, tr, refs_at(d, p, n, w), inner) {
                                    Err(e) => Err(e),
                                    Ok(ks) => match parse_list(
                                        d,
                                        tr,
                                        refs_at(d, p + n * w, n, w),
                                        inner,
                                    ) {
                                        Err(e) => Err(e),
                                        Ok(vs) => if all_text(ks) {
                                            Ok(
                                                PlistView::Dictionary(
                                                    Seq::new(
                                                        n,
                                                        |i: int|
                                                            (key_text(ks[i]).unwrap(), vs[i]),
                                                    ),
                                                ),
                                            )
                                        } else {
                                            Err(DecodeErrorView::InvalidKey)
                                        },
                                    },
                                }
                            }
                        }
                    },
                },
            }
        }
    }
}

/// The values of the objects `refs` names, decoded in order; the first
/// error is the result.
pub open spec fn parse_list(d: Seq<u8>, tr: TrailerView, refs: Seq<nat>, stack: Seq<nat>) -> Result<
    Seq<PlistView>,
    DecodeErrorView,
>
    decreases MAX_DEPTH - stack.len(), refs.len(),
{
    if refs.len() == 0 {
        Ok(Seq::empty())
    } else {
        match parse_list(d, tr, refs.drop_last(), stack) {
            Err(e) => Err(e),
            Ok(vs) => match parse_obj(d, tr, refs.last(), stack) {
                Err(e) => Err(e),
                Ok(v) => Ok(vs.push(v)),
            },
        }
    }
}

/// What decoding a binary property list gives: the checks of the header
/// (at least 8 bytes, then `bplist00`), of the size (room for the
/// trailer), of the trailer, and then the top object.
pub open spec fn spec_decode(d: Seq<u8>) -> Result<PlistView, DecodeErrorView> {
    if d.len() < 8 {
        Err(too_small(8, d.len()))
    } else if d.subrange(0, 8) != magic() {
        Err(DecodeErrorView::InvalidMagic(d.subrange(0, 8)))
    } else if d.len() < 40 {
        Err(too_small(40, d.len()))
    } else if !trailer_ok(d, spec_trailer(d)) {
        Err(DecodeErrorView::InvalidTrailer)
    } else {
        parse_obj(d, spec_trailer(d), spec_trailer(d).top_object, Seq::empty())
    }
}

/// The trailer's fields, once checked.
struct Layout {
    offset_size: usize,
    ref_size: usize,
    num_objects: u64,
    top_object: u64,
    table_start: usize,
}

/// Whether an exec layout is the trailer of `d` and fits it.
spec fn layout_of(d: Seq<u8>, l: Layout) -> bool {
    &&& d.len() >= 40
    &&& trailer_ok(d, spec_trailer(d))
    &&& l.offset_size as nat == spec_trailer(d).offset_size
    &&& l.ref_size as nat == spec_trailer(d).ref_size
    &&& l.num_objects as nat == spec_trailer(d).num_objects
    &&& l.top_object as nat == spec_trailer(d).top_object
    &&& l.table_start as nat == spec_trailer(d).table_start
}

/// Check the header and the trailer, and read the layout.
fn read_layout(data: &[u8]) -> (r: Result<Layout, PlistDecodeError>)
    ensures
        r matches Ok(l) ==> layout_of(data@, l) && data@.subrange(0, 8) == magic(),
        r matches Err(e) ==> spec_decode(data@) == Err::<PlistView, DecodeErrorView>(e@),
{
    let n = data.len();
    if n < 8 {
        return Err(PlistDecodeError::BufferTooSmall { needed: 8, available: n });
    }
    let head = copy_bytes(&data[0..8]);
    if !(head[0] == 98 && head[1] == 112 && head[2] == 108 && head[3] == 105 && head[4] == 115
        && head[5] == 116 && head[6] == 48 && head[7] == 48) {
        proof {
            if data@.subrange(0, 8) == magic() {
                assert(head@[0] == magic()[0]);
                assert(head@[7] == magic()[7]);
            }
        }
        return Err(PlistDecodeError::InvalidMagic(head));
    }
    assert(head@ =~= magic());
    if n < 40 {
        return Err(PlistDecodeError::BufferTooSmall { needed: 40, available: n });
    }
    let t = n - 32;
    let offset_size = data[t + 6] as usize;
    let ref_size = data[t + 7] as usize;
    let num_objects = read_be(data, t + 8, 8);
    let top_object = read_be(data, t + 16, 8);
    let table = read_be(data, t + 24, 8);
    let ghost tr = spec_trailer(data@);
    assert(tr.num_objects == num_objects as nat);
    if offset_size < 1 || offset_size > 8 || ref_size < 1 || ref_size > 8 || num_objects < 1
        || top_object >= num_objects || table < 8 || table > t as u64 {
        return Err(PlistDecodeError::InvalidTrailer);
    }
    let room = t as u64 - table;
    match num_objects.checked_mul(offset_size as u64) {
        None => {
            proof {
                assert(num_objects * offset_size > room) by (nonlinear_arith)
                    requires
                        num_objects * offset_size > u64::MAX,
                        room <= u64::MAX,
                ;
            }
            return Err(PlistDecodeError::InvalidTrailer);
        },
        Some(size) => {
            if size > room {
                return Err(PlistDecodeError::InvalidTrailer);
            }
        },
    }
    Ok(
        Layout {
            offset_size,
            ref_size,
            num_objects,
            top_object,
            table_start: table as usize,
        },
    )
}

/// The offset of object `idx`.
fn object_offset(data: &[u8], l: &Layout, idx: u64) -> (r: u64)
    requires
        layout_of(data@, *l),
        idx < l.num_objects,
    ensures
        r as nat == obj_offset(data@, spec_trailer(data@), idx as nat),
{
    let os = l.offset_size;
    proof {
        let num = l.num_objects as int;
        let o = os as int;
        let i = idx as int;
        assert((i + 1) * o <= num * o) by (nonlinear_arith)
            requires
                i + 1 <= num,
                o >= 1,
        ;
        assert(i * o + o == (i + 1) * o) by (nonlinear_arith);
        assert(i <= i * o) by (nonlinear_arith)
            requires
                o >= 1,
                i >= 0,
        ;
        assert(l.table_start + num * o <= data@.len() - 32);
    }
    let dl = data.len();
    assert(l.table_start + l.num_objects * os <= dl);
    let i = idx as usize;
    let pos = l.table_start + i * os;
    read_be(data, pos, os)
}

/// The count of the object whose marker at `off` has low nibble `lo`, and
/// where its payload starts.
fn count_at(data: &[u8], limit: usize, off: usize, lo: u8) -> (r: Result<
    (u64, usize),
    PlistDecodeError,
>)
    requires
        limit + 32 <= data@.len(),
        off < limit,
        lo < 16,
    ensures
        r matches Ok(c) ==> count_of(data@, limit as int, off as int, lo as int) == Ok::<
            (nat, int),
            DecodeErrorView,
        >((c.0 as nat, c.1 as int)),
        r matches Err(e) ==> count_of(data@, limit as int, off as int, lo as int) == Err::<
            (nat, int),
            DecodeErrorView,
        >(e@),
{
    let dl = data.len();
    assert(limit + 32 <= dl);
    if lo < 15 {
        return Ok((lo as u64, off + 1));
    }
    if limit - off < 2 {
        return Err(PlistDecodeError::BufferTooSmall { needed: off + 2, available: limit });
    }
    let m = data[off + 1];
    if m / 16 != 1 || m % 16 > 3 {
        return Err(PlistDecodeError::InvalidLength);
    }
    let k = m % 16;
    let n: usize = if k == 0 {
        1
    } else if k == 1 {
        2
    } else if k == 2 {
        4
    } else {
        8
    };
    assert(n == width(k as nat));
    if limit - off - 2 < n {
        return Err(PlistDecodeError::BufferTooSmall { needed: off + 2 + n, available: limit });
    }
    let v = read_be(data, off + 2, n);
    Ok((v, off + 2 + n))
}

/// The signed value of a `u64`'s bits.
fn as_signed(v: u64) -> (r: i64)
    ensures
        r == signed64(v as nat),
{
    let r = v as i64;
    proof {
        assert(v >= 0x8000_0000_0000_0000 ==> r as int == v - 0x1_0000_0000_0000_0000)
            by (bit_vector)
            requires
                r == v as i64,
        ;
        assert(v < 0x8000_0000_0000_0000 ==> r as int == v) by (bit_vector)
            requires
                r == v as i64,
        ;
    }
    r
}

/// The value of data, an ASCII string or a UTF-16 string (marker types 4,
/// 5 and 6).
fn sized(data: &[u8], limit: usize, off: usize, m: u8) -> (r: Result<PlistValue, PlistDecodeError>)
    requires
        limit + 32 <= data@.len(),
        off < limit,
        m / 16 == 4 || m / 16 == 5 || m / 16 == 6,
    ensures
        r matches Ok(v) ==> scalar_at(data@, limit as int, off as int, m) == Some(
            Ok::<PlistView, DecodeErrorView>(v@),
        ),
        r matches Err(e) ==> scalar_at(data@, limit as int, off as int, m) == Some(
            Err::<PlistView, DecodeErrorView>(e@),
        ),
{
    let dl = data.len();
    assert(limit + 32 <= dl);
    let hi = m / 16;
    let lo = m % 16;
    let (n, p) = match count_at(data, limit, off, lo) {
        Err(e) => return Err(e),
        Ok(c) => c,
    };
    let avail = (limit - p) as u64;
    let fits = if hi == 6 {
        n <= avail / 2
    } else {
        n <= avail
    };
    if !fits {
        let size: u128 = if hi == 6 {
            2 * (n as u128)
        } else {
            n as u128
        };
        let needed: u128 = p as u128 + size;
        let shown: usize = if needed > usize::MAX as u128 {
            usize::MAX
        } else {
            needed as usize
        };
        return Err(PlistDecodeError::BufferTooSmall { needed: shown, available: limit });
    }
    let n = n as usize;
    if hi == 4 {
        Ok(PlistValue::Data(copy_bytes(&data[p..p + n])))
    } else if hi == 5 {
        let b = &data[p..p + n];
        assert(b@ == data@.subrange(p as int, (p + n) as int));
        let mut ascii = true;
        let mut i: usize = 0;
        while i < n
            invariant
                i <= n,
                b@.len() == n,
                ascii == (forall|j: int| 0 <= j < i ==> #[trigger] b@[j] < 128),
            decreases n - i,
        {
            if b[i] >= 128 {
                ascii = false;
            }
            i = i + 1;
        }
        if !ascii {
            return Err(PlistDecodeError::InvalidString);
        }
        match str_from_utf8(b) {
            Some(t) => Ok(PlistValue::String(t)),
            None => Err(PlistDecodeError::InvalidString),
        }
    } else {
        let mut units: Vec<u16> = Vec::new();
        let mut k: usize = 0;
        while k < n
            invariant
                k <= n,
                p + 2 * n <= limit <= data@.len(),
                units@ == utf16_units(data@.subrange(p as int, p + 2 * n), k as nat),
            decreases n - k,
        {
            let u = (data[p + 2 * k] as u16) * 256 + data[p + 2 * k + 1] as u16;
            units.push(u);
            proof {
                let b = data@.subrange(p as int, p + 2 * n);
                assert(b[2 * k as int] == data@[p + 2 * k]);
                assert(b[2 * k + 1] == data@[p + 2 * k + 1]);
                assert(units@ =~= utf16_units(b, (k + 1) as nat));
            }
            k = k + 1;
        }
        match string_from_utf16(units.as_slice()) {
            Some(t) => Ok(PlistValue::String(t)),
            None => Err(PlistDecodeError::InvalidString),
        }
    }
}

/// The value of a non-container object (`None` for arrays and
/// dictionaries).
fn scalar(data: &[u8], limit: usize, off: usize, m: u8) -> (r: Option<
    Result<PlistValue, PlistDecodeError>,
>)
    requires
        limit + 32 <= data@.len(),
        off < limit,
    ensures
        r is None ==> scalar_at(data@, limit as int, off as int, m) is None,
        r matches Some(Ok(v)) ==> scalar_at(data@, limit as int, off as int, m) == Some(
            Ok::<PlistView, DecodeErrorView>(v@),
        ),
        r matches Some(Err(e)) ==> scalar_at(data@, limit as int, off as int, m) == Some(
            Err::<PlistView, DecodeErrorView>(e@),
        ),
{
    let dl = data.len();
    assert(limit + 32 <= dl);
    let hi = m / 16;
    let lo = m % 16;
    let room = limit - off;
    if hi == 0 {
        if m == 8 {
            Some(Ok(PlistValue::Boolean(false)))
        } else if m == 9 {
            Some(Ok(PlistValue::Boolean(true)))
        } else {
            Some(Err(PlistDecodeError::InvalidObjectMarker(m)))
        }
    } else if hi == 1 {
        if lo <= 3 {
            let n: usize = if lo == 0 {
                1
            } else if lo == 1 {
                2
            } else if lo == 2 {
                4
            } else {
                8
            };
            assert(n == width(lo as nat));
            if room - 1 < n {
                return Some(
                    Err(PlistDecodeError::BufferTooSmall { needed: off + 1 + n, available: limit }),
                );
            }
            let v = read_be(data, off + 1, n);
            if lo == 3 {
                Some(Ok(PlistValue::Integer(as_signed(v))))
            } else {
                proof {
                    lemma_be_value_bound(data@.subrange(off + 1, off + 1 + n));
                    crate::bytes::lemma_pow256_values();
                }
                Some(Ok(PlistValue::Integer(v as i64)))
            }
        } else if lo == 4 {
            if room < 17 {
                return Some(
                    Err(PlistDecodeError::BufferTooSmall { needed: off + 17, available: limit }),
                );
            }
            let high = read_be(data, off + 1, 8);
            if high == 0 {
                let low = read_be(data, off + 9, 8);
                Some(Ok(PlistValue::UnsignedInteger(low)))
            } else {
                Some(Err(PlistDecodeError::InvalidObjectMarker(m)))
            }
        } else {
            Some(Err(PlistDecodeError::InvalidObjectMarker(m)))
        }
    } else if hi == 2 {
        if lo == 2 {
            if room < 5 {
                return Some(
                    Err(PlistDecodeError::BufferTooSmall { needed: off + 5, available: limit }),
                );
            }
            let v = read_be(data, off + 1, 4);
            proof {
                lemma_be_value_bound(data@.subrange(off + 1, off + 5));
                crate::bytes::lemma_pow256_values();
            }
            Some(Ok(PlistValue::Real32(v as u32)))
        } else if lo == 3 {
            if room < 9 {
                return Some(
                    Err(PlistDecodeError::BufferTooSmall { needed: off + 9, available: limit }),
                );
            }
            Some(Ok(PlistValue::Real(read_be(data, off + 1, 8))))
        } else {
            Some(Err(PlistDecodeError::InvalidObjectMarker(m)))
        }
    } else if hi == 3 {
        if m != 0x33 {
            Some(Err(PlistDecodeError::InvalidObjectMarker(m)))
        } else if room < 9 {
            Some(Err(PlistDecodeError::BufferTooSmall { needed: off + 9, available: limit }))
        } else {
            Some(Ok(PlistValue::Date(read_be(data, off + 1, 8))))
        }
    } else if hi == 4 || hi == 5 || hi == 6 {
        Some(sized(data, limit, off, m))
    } else if hi == 8 {
        if lo > 7 {
            Some(Err(PlistDecodeError::InvalidObjectMarker(m)))
        } else if room < 2 + lo as usize {
            Some(
                Err(
                    PlistDecodeError::BufferTooSmall {
                        needed: off + 2 + lo as usize,
                        available: limit,
                    },
                ),
            )
        } else {
            Some(Ok(PlistValue::Uid(read_be(data, off + 1, 1 + lo as usize))))
        }
    } else if hi == 0xA || hi == 0xD {
        None
    } else {
        Some(Err(PlistDecodeError::InvalidObjectMarker(m)))
    }
}

/// Object indices as the contracts see them.
pub open spec fn nats(s: Seq<u64>) -> Seq<nat> {
    s.map_values(|x: u64| x as nat)
}

/// Read `n` object references of `w` bytes each, starting at `p`.
fn read_refs(data: &[u8], p: usize, n: usize, w: usize) -> (r: Vec<u64>)
    requires
        1 <= w <= 8,
        p + n * w <= data@.len(),
    ensures
        nats(r@) == refs_at(data@, p as int, n as nat, w as nat),
{
    let dl = data.len();
    let mut out: Vec<u64> = Vec::new();
    let mut k: usize = 0;
    while k < n
        invariant
            1 <= w <= 8,
            k <= n,
            p + n * w <= dl,
            dl == data@.len(),
            nats(out@) == refs_at(data@, p as int, k as nat, w as nat),
        decreases n - k,
    {
        proof {
            assert((k + 1) * w <= n * w) by (nonlinear_arith)
                requires
                    k + 1 <= n,
                    w >= 1,
            ;
            assert(k * w + w == (k + 1) * w) by (nonlinear_arith);
        }
        let pos = p + k * w;
        let v = read_be(data, pos, w);
        let ghost prev = out@;
        out.push(v);
        proof {
            assert(out@ == prev.push(v));
            assert(nats(out@) =~= nats(prev).push(v as nat));
            let next = refs_at(data@, p as int, (k + 1) as nat, w as nat);
            let cur = refs_at(data@, p as int, k as nat, w as nat);
            assert(pos + w == p + (k + 1) * w);
            assert(next[k as int] == v as nat);
            assert(next =~= cur.push(v as nat));
        }
        k = k + 1;
    }
    out
}

/// The views of values have one entry per value, each the value's view.
pub(crate) proof fn lemma_views_of(s: Seq<PlistValue>)
    ensures
        views_of(s).len() == s.len(),
        forall|i: int| 0 <= i < s.len() ==> #[trigger] views_of(s)[i] == view_of(s[i]),
    decreases s.len(),
{
    if s.len() > 0 {
        lemma_views_of(s.drop_last());
        assert forall|i: int| 0 <= i < s.len() implies #[trigger] views_of(s)[i] == view_of(
            s[i],
        ) by {
            if i < s.len() - 1 {
                assert(s.drop_last()[i] == s[i]);
            }
        }
    }
}

/// A failure among the first `k` objects stays the result whatever
/// follows.
proof fn lemma_list_error_persists(
    d: Seq<u8>,
    tr: TrailerView,
    refs: Seq<nat>,
    stack: Seq<nat>,
    k: int,
)
    requires
        0 <= k <= refs.len(),
        parse_list(d, tr, refs.subrange(0, k), stack) is Err,
    ensures
        parse_list(d, tr, refs, stack) == parse_list(d, tr, refs.subrange(0, k), stack),
    decreases refs.len(),
{
    if k < refs.len() {
        assert(refs.drop_last().subrange(0, k) =~= refs.subrange(0, k));
        lemma_list_error_persists(d, tr, refs.drop_last(), stack, k);
    } else {
        assert(refs.subrange(0, k) =~= refs);
    }
}

/// Decode the objects that `refs` names, in order.
fn parse_refs(data: &[u8], l: &Layout, refs: &Vec<u64>, stack: &mut Vec<u64>) -> (r: Result<
    Vec<PlistValue>,
    PlistDecodeError,
>)
    requires
        layout_of(data@, *l),
        old(stack)@.len() <= MAX_DEPTH,
    ensures
        final(stack)@ == old(stack)@,
        r matches Ok(vs) ==> parse_list(data@, spec_trailer(data@), nats(refs@), nats(old(stack)@))
            == Ok::<Seq<PlistView>, DecodeErrorView>(views_of(vs@)),
        r matches Err(e) ==> parse_list(data@, spec_trailer(data@), nats(refs@), nats(old(stack)@))
            == Err::<Seq<PlistView>, DecodeErrorView>(e@),
    decreases MAX_DEPTH - old(stack)@.len(), 1nat,
{
    let ghost d = data@;
    let ghost tr = spec_trailer(data@);
    let ghost st = nats(stack@);
    let ghost rs = nats(refs@);
    let ghost s0 = stack@;
    let mut out: Vec<PlistValue> = Vec::new();
    let mut k: usize = 0;
    assert(rs.subrange(0, 0) =~= Seq::<nat>::empty());
    assert(views_of(out@) =~= Seq::<PlistView>::empty());
    while k < refs.len()
        invariant
            layout_of(data@, *l),
            d == data@,
            tr == spec_trailer(data@),
            k <= refs@.len(),
            rs == nats(refs@),
            stack@ == s0,
            s0 == old(stack)@,
            st == nats(s0),
            s0.len() <= MAX_DEPTH,
            parse_list(d, tr, rs.subrange(0, k as int), st) == Ok::<
                Seq<PlistView>,
                DecodeErrorView,
            >(views_of(out@)),
        decreases refs@.len() - k,
    {
        let ghost part = rs.subrange(0, k + 1);
        proof {
            assert(part.drop_last() =~= rs.subrange(0, k as int));
            assert(part.last() == refs@[k as int] as nat);
        }
        match parse_object(data, l, refs[k], stack) {
            Err(e) => {
                proof {
                    lemma_list_error_persists(d, tr, rs, st, k + 1);
                }
                return Err(e);
            },
            Ok(v) => {
                let ghost before = out@;
                out.push(v);
                proof {
                    assert(out@.drop_last() =~= before);
                }
            },
        }
        k = k + 1;
    }
    assert(rs.subrange(0, refs@.len() as int) =~= rs);
    Ok(out)
}

/// Whether `stack` holds `idx`.
fn holds(stack: &Vec<u64>, idx: u64) -> (r: bool)
    ensures
        r == nats(stack@).contains(idx as nat),
{
    let mut found = false;
    let mut i: usize = 0;
    while i < stack.len()
        invariant
            i <= stack@.len(),
            found == (exists|j: int| 0 <= j < i && #[trigger] stack@[j] == idx),
        decreases stack@.len() - i,
    {
        if stack[i] == idx {
            found = true;
        }
        i = i + 1;
    }
    proof {
        let s = nats(stack@);
        if found {
            let j = choose|j: int| 0 <= j < stack@.len() && #[trigger] stack@[j] == idx;
            assert(s[j] == idx as nat);
        }
        if s.contains(idx as nat) {
            let j = choose|j: int| 0 <= j < s.len() && s[j] == idx as nat;
            assert(stack@[j] == idx);
        }
    }
    found
}

/// Build a dictionary from decoded keys and values.
fn dictionary(ks: Vec<PlistValue>, vs: Vec<PlistValue>) -> (r: Result<
    PlistValue,
    PlistDecodeError,
>)
    requires
        ks@.len() == vs@.len(),
    ensures
        all_text(views_of(ks@)) ==> (r matches Ok(v) && v@ == PlistView::Dictionary(
            Seq::new(
                ks@.len(),
                |i: int| (key_text(views_of(ks@)[i]).unwrap(), views_of(vs@)[i]),
            ),
        )),
        !all_text(views_of(ks@)) ==> (r matches Err(e) && e@ == DecodeErrorView::InvalidKey),
{
    proof {
        lemma_views_of(ks@);
        lemma_views_of(vs@);
    }
    let n = ks.len();
    let mut keys: Vec<String> = Vec::new();
    let mut i: usize = 0;
    while i < n
        invariant
            n == ks@.len(),
            i <= n,
            keys@.len() == i,
            forall|j: int| 0 <= j < i ==> key_text(#[trigger] views_of(ks@)[j]) == Some(keys@[j]@),
            views_of(ks@).len() == ks@.len(),
            forall|j: int| 0 <= j < ks@.len() ==> #[trigger] views_of(ks@)[j] == view_of(ks@[j]),
        decreases n - i,
    {
        match &ks[i] {
            PlistValue::String(t) => {
                keys.push(t.clone());
            },
            _ => {
                proof {
                    assert(key_text(views_of(ks@)[i as int]) is None);
                }
                return Err(PlistDecodeError::InvalidKey);
            },
        }
        i = i + 1;
    }
    let ghost vv = views_of(vs@);
    let ghost kv = views_of(ks@);
    let mut entries: Vec<(String, PlistValue)> = Vec::new();
    let mut rest = vs;
    let mut j: usize = 0;
    while j < n
        invariant
            n == ks@.len(),
            j <= n,
            keys@.len() == n,
            forall|q: int| 0 <= q < n ==> key_text(#[trigger] kv[q]) == Some(keys@[q]@),
            vv.len() == n,
            rest@.len() == n - j,
            forall|q: int| 0 <= q < rest@.len() ==> view_of(#[trigger] rest@[q]) == vv[q + j],
            entries_of(entries@) == Seq::new(
                j as nat,
                |q: int| (key_text(kv[q]).unwrap(), vv[q]),
            ),
        decreases n - j,
    {
        let v = rest.remove(0);
        let ghost before = entries@;
        let key = keys[j].clone();
        entries.push((key, v));
        proof {
            assert(entries@.drop_last() =~= before);
            assert(entries_of(entries@) =~= Seq::new(
                (j + 1) as nat,
                |q: int| (key_text(kv[q]).unwrap(), vv[q]),
            ));
        }
        j = j + 1;
    }
    Ok(PlistValue::Dictionary(entries))
}

/// The error for a container whose references would end past `limit`
/// (the end saturates at `usize::MAX`).
fn refs_too_small(p: usize, n: u64, w: usize, copies: u64, limit: usize) -> (r: PlistDecodeError)
    requires
        1 <= w <= 8,
        1 <= copies <= 2,
    ensures
        r@ == too_small((p + copies * n * w) as nat, limit as nat),
{
    let c = copies as u128;
    let nu = n as u128;
    let wu = w as u128;
    proof {
        assert(c * nu <= 2 * 0xffff_ffff_ffff_ffff) by (nonlinear_arith)
            requires
                c <= 2,
                nu <= 0xffff_ffff_ffff_ffff,
        ;
        assert(c * nu * wu <= 2 * 0xffff_ffff_ffff_ffff * 8) by (nonlinear_arith)
            requires
                c * nu <= 2 * 0xffff_ffff_ffff_ffff,
                wu <= 8,
        ;
    }
    let needed: u128 = p as u128 + c * nu * wu;
    let shown: usize = if needed > usize::MAX as u128 {
        usize::MAX
    } else {
        needed as usize
    };
    PlistDecodeError::BufferTooSmall { needed: shown, available: limit }
}

/// Decode object `idx`, with `stack` holding the objects that contain it.
fn parse_object(data: &[u8], l: &Layout, idx: u64, stack: &mut Vec<u64>) -> (r: Result<
    PlistValue,
    PlistDecodeError,
>)
    requires
        layout_of(data@, *l),
        old(stack)@.len() <= MAX_DEPTH,
    ensures
        final(stack)@ == old(stack)@,
        r matches Ok(v) ==> parse_obj(data@, spec_trailer(data@), idx as nat, nats(old(stack)@))
            == Ok::<PlistView, DecodeErrorView>(v@),
        r matches Err(e) ==> parse_obj(data@, spec_trailer(data@), idx as nat, nats(old(stack)@))
            == Err::<PlistView, DecodeErrorView>(e@),
    decreases MAX_DEPTH - old(stack)@.len(), 0nat,
{
    let ghost tr = spec_trailer(data@);
    let ghost st = nats(stack@);
    if idx >= l.num_objects {
        return Err(PlistDecodeError::InvalidObjectRef(idx));
    }
    if holds(stack, idx) {
        return Err(PlistDecodeError::CircularReference);
    }
    if stack.len() >= MAX_DEPTH {
        return Err(PlistDecodeError::TooDeep);
    }
    let off = object_offset(data, l, idx);
    let limit = l.table_start;
    if off < 8 || off >= limit as u64 {
        return Err(PlistDecodeError::InvalidOffset(off));
    }
    let off = off as usize;
    let m = data[off];
    match scalar(data, limit, off, m) {
        Some(r) => return r,
        None => {},
    }
    let (n, p) = match count_at(data, limit, off, m % 16) {
        Err(e) => return Err(e),
        Ok(c) => c,
    };
    let w = l.ref_size;
    let room = (limit - p) as u64;
    let ghost inner = st.push(idx as nat);
    if m / 16 == 0xA {
        if n > room / (w as u64) {
            proof {
                assert(n * w > room) by (nonlinear_arith)
                    requires
                        n > room / (w as u64),
                        w >= 1,
                ;
            }
            return Err(refs_too_small(p, n, w, 1, limit));
        }
        proof {
            assert(n * w <= room) by (nonlinear_arith)
                requires
                    n <= room / (w as u64),
                    w >= 1,
            ;
        }
        let refs = read_refs(data, p, n as usize, w);
        stack.push(idx);
        proof {
            assert(nats(stack@) =~= inner);
        }
        let res = parse_refs(data, l, &refs, stack);
        stack.pop();
        match res {
            Err(e) => Err(e),
            Ok(vs) => Ok(PlistValue::Array(vs)),
        }
    } else {
        let w2: u64 = 2 * w as u64;
        if n > room / w2 {
            proof {
                assert(2 * n * w > room) by (nonlinear_arith)
                    requires
                        n > room / w2,
                        w2 == 2 * w,
                        w >= 1,
                ;
            }
            return Err(refs_too_small(p, n, w, 2, limit));
        }
        proof {
            assert(2 * n * w <= room) by (nonlinear_arith)
                requires
                    n <= room / w2,
                    w2 == 2 * w,
                    w >= 1,
            ;
            assert(n * w + n * w == 2 * n * w) by (nonlinear_arith);
        }
        let nn = n as usize;
        let keys = read_refs(data, p, nn, w);
        let vals = read_refs(data, p + nn * w, nn, w);
        stack.push(idx);
        proof {
            assert(nats(stack@) =~= inner);
        }
        let kr = parse_refs(data, l, &keys, stack);
        let ks = match kr {
            Err(e) => {
                stack.pop();
                return Err(e);
            },
            Ok(ks) => ks,
        };
        let vr = parse_refs(data, l, &vals, stack);
        stack.pop();
        let vs = match vr {
            Err(e) => return Err(e),
            Ok(vs) => vs,
        };
        proof {
            lemma_parse_list_len(data@, tr, nats(keys@), inner);
            lemma_parse_list_len(data@, tr, nats(vals@), inner);
            lemma_views_of(ks@);
            lemma_views_of(vs@);
        }
        dictionary(ks, vs)
    }
}

/// A decoded list has one value per reference.
proof fn lemma_parse_list_len(d: Seq<u8>, tr: TrailerView, refs: Seq<nat>, stack: Seq<nat>)
    ensures
        parse_list(d, tr, refs, stack) matches Ok(vs) ==> vs.len() == refs.len(),
    decreases refs.len(),
{
    if refs.len() > 0 {
        lemma_parse_list_len(d, tr, refs.drop_last(), stack);
    }
}

/// Decode a binary property list.
pub fn decode(data: &[u8]) -> (r: Result<PlistValue, PlistDecodeError>)
    ensures
        r matches Ok(v) ==> spec_decode(data@) == Ok::<PlistView, DecodeErrorView>(v@),
        r matches Err(e) ==> spec_decode(data@) == Err::<PlistView, DecodeErrorView>(e@),
{
    let l = match read_layout(data) {
        Err(e) => return Err(e),
        Ok(l) => l,
    };
    let mut stack: Vec<u64> = Vec::new();
    proof {
        assert(nats(stack@) =~= Seq::<nat>::empty());
    }
    parse_object(data, &l, l.top_object, &mut stack)
}

} // verus!
