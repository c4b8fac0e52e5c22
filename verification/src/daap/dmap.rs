//! DMAP (Digital Media Access Protocol) encoding: each item is a 4-byte tag
//! code, a 4-byte big-endian length and the value's bytes.
use vstd::prelude::*;
use vstd::utf8::{
    decode_utf8, encode_utf8, encode_utf8_decode_utf8, encode_utf8_valid_utf8, is_ascii_chars,
    is_ascii_chars_encode_utf8, valid_utf8,
};
use crate::text::str_from_utf8;
use crate::bytes::{
    be_bytes, be_value, lemma_be_bytes_len, lemma_be_value_of_bytes, lemma_pow256_values, push_be,
    read_be,
};

verus! {

/// DMAP content codes (tags).
#[derive(Debug, Clone, Copy, PartialEq, Eq, Structural)]
pub enum DmapTag {
    /// Item name (track title)
    ItemName,
    /// Song artist
    SongArtist,
    /// Song album
    SongAlbum,
    /// Song genre
    SongGenre,
    /// Song track number
    SongTrackNumber,
    /// Song disc number
    SongDiscNumber,
    /// Song year
    SongYear,
    /// Song time (duration in ms)
    SongTime,
    /// Container listing
    Listing,
    /// Listing item
    ListingItem,
    /// Database songs
    DatabaseSongs,
}

/// The four characters of a tag code.
pub open spec fn code_chars(tag: DmapTag) -> Seq<char> {
    match tag {
        DmapTag::ItemName => seq!['m', 'i', 'n', 'm'],
        DmapTag::SongArtist => seq!['a', 's', 'a', 'r'],
        DmapTag::SongAlbum => seq!['a', 's', 'a', 'l'],
        DmapTag::SongGenre => seq!['a', 's', 'g', 'n'],
        DmapTag::SongTrackNumber => seq!['a', 's', 't', 'n'],
        DmapTag::SongDiscNumber => seq!['a', 's', 'd', 'n'],
        DmapTag::SongYear => seq!['a', 's', 'y', 'r'],
        DmapTag::SongTime => seq!['a', 's', 't', 'm'],
        DmapTag::Listing => seq!['m', 'l', 'c', 'l'],
        DmapTag::ListingItem => seq!['m', 'l', 'i', 't'],
        DmapTag::DatabaseSongs => seq!['a', 'd', 'b', 's'],
    }
}

/// The four bytes of a tag code (ASCII).
pub open spec fn code_bytes(tag: DmapTag) -> Seq<u8> {
    code_chars(tag).map_values(|c: char| c as u8)
}

impl DmapTag {
    /// Get the 4-character code for the tag.
    pub fn code(&self) -> (r: [u8; 4])
        ensures
            r@ == code_bytes(*self),
    {
        let r: [u8; 4] = match self {
            DmapTag::ItemName => [109, 105, 110, 109],
            DmapTag::SongArtist => [97, 115, 97, 114],
            DmapTag::SongAlbum => [97, 115, 97, 108],
            DmapTag::SongGenre => [97, 115, 103, 110],
            DmapTag::SongTrackNumber => [97, 115, 116, 110],
            DmapTag::SongDiscNumber => [97, 115, 100, 110],
            DmapTag::SongYear => [97, 115, 121, 114],
            DmapTag::SongTime => [97, 115, 116, 109],
            DmapTag::Listing => [109, 108, 99, 108],
            DmapTag::ListingItem => [109, 108, 105, 116],
            DmapTag::DatabaseSongs => [97, 100, 98, 115],
        };
        assert(r@ =~= code_bytes(*self));
        r
    }
}

/// DMAP value types.
#[derive(Debug)]
pub enum DmapValue {
    /// String value (UTF-8)
    String(String),
    /// Integer value (encoded in 1, 2, 4 or 8 bytes)
    Int(i64),
    /// Container (nested DMAP)
    Container(Vec<(DmapTag, DmapValue)>),
    /// Raw bytes
    Raw(Vec<u8>),
}

/// A length as the 32-bit field holds it (taken modulo 2^32).
pub open spec fn len32(n: nat) -> Seq<u8> {
    be_bytes(n % 0x1_0000_0000, 4)
}

/// The two's complement bits of an `i64`, as an unsigned number.
pub open spec fn twos(n: i64) -> nat {
    if n >= 0 {
        n as nat
    } else {
        (n + 0x1_0000_0000_0000_0000) as nat
    }
}

/// The bytes of an integer: one unsigned byte for 0..=255, else the
/// smallest of 2, 4 or 8 big-endian two's complement bytes that holds it.
pub open spec fn int_bytes(n: i64) -> Seq<u8> {
    if 0 <= n <= 255 {
        seq![n as u8]
    } else if -0x8000 <= n <= 0x7fff {
        be_bytes(twos(n), 2)
    } else if -0x8000_0000 <= n <= 0x7fff_ffff {
        be_bytes(twos(n), 4)
    } else {
        be_bytes(twos(n), 8)
    }
}

/// The encoding of one tagged value.
pub open spec fn encode_item(tag: DmapTag, v: DmapValue) -> Seq<u8>
    decreases v, 0nat,
{
    let body = match v {
        DmapValue::String(s) => encode_utf8(s@),
        DmapValue::Int(n) => int_bytes(n),
        DmapValue::Container(items) => encode_items(items@),
        DmapValue::Raw(data) => data@,
    };
    code_bytes(tag) + len32(body.len()) + body
}

/// The encoding of a list of tagged values, one after the other.
pub open spec fn encode_items(items: Seq<(DmapTag, DmapValue)>) -> Seq<u8>
    decreases items, 1nat,
{
    if items.len() == 0 {
        Seq::empty()
    } else {
        encode_items(items.drop_last()) + encode_item(items.last().0, items.last().1)
    }
}

/// DMAP encoder.
pub struct DmapEncoder {
    buffer: Vec<u8>,
}

impl View for DmapEncoder {
    type V = Seq<u8>;

    closed spec fn view(&self) -> Seq<u8> {
        self.buffer@
    }
}

impl DmapEncoder {
    /// Create a new encoder.
    pub fn new() -> (r: Self)
        ensures
            r@ == Seq::<u8>::empty(),
    {
        Self { buffer: Vec::new() }
    }

    fn push_len(&mut self, n: usize)
        ensures
            final(self)@ == old(self)@ + len32(n as nat),
    {
        let v: u64 = (n as u64) % 0x1_0000_0000;
        push_be(&mut self.buffer, v, 4);
    }

    /// Encode a tag-value pair.
    pub fn encode_tag(&mut self, tag: DmapTag, value: &DmapValue)
        ensures
            final(self)@ == old(self)@ + encode_item(tag, *value),
        decreases value,
    {
        let code = tag.code();
        self.buffer.extend_from_slice(code.as_slice());
        match value {
            DmapValue::String(s) => {
                let bytes = s.as_str().as_bytes();
                self.push_len(bytes.len());
                self.buffer.extend_from_slice(bytes);
            },
            DmapValue::Int(n) => {
                let n = *n;
                let u: u64 = n as u64;
                proof {
                    assert(n < 0 ==> u as int == n + 0x1_0000_0000_0000_0000) by (bit_vector)
                        requires
                            u == n as u64,
                    ;
                    assert(n >= 0 ==> u as int == n) by (bit_vector)
                        requires
                            u == n as u64,
                    ;
                }
                if n >= 0 && n <= 255 {
                    self.push_len(1);
                    self.buffer.push(n as u8);
                } else if n >= -0x8000 && n <= 0x7fff {
                    self.push_len(2);
                    push_be(&mut self.buffer, u, 2);
                } else if n >= -0x8000_0000 && n <= 0x7fff_ffff {
                    self.push_len(4);
                    push_be(&mut self.buffer, u, 4);
                } else {
                    self.push_len(8);
                    push_be(&mut self.buffer, u, 8);
                }
                proof {
                    lemma_be_bytes_len(twos(n), 2);
                    lemma_be_bytes_len(twos(n), 4);
                    lemma_be_bytes_len(twos(n), 8);
                }
            },
            DmapValue::Container(items) => {
                let mut inner = DmapEncoder::new();
                let mut i: usize = 0;
                while i < items.len()
                    invariant
                        i <= items@.len(),
                        *value == DmapValue::Container(*items),
                        inner@ == encode_items(items@.subrange(0, i as int)),
                    decreases items@.len() - i,
                {
                    let item = &items[i];
                    proof {
                        assert(*items == (*value)->Container_0);
                        assert(decreases_to!(*value => (*value)->Container_0));
                        assert(decreases_to!(*items => items@));
                        assert(decreases_to!(items@ => items@[i as int]));
                        assert(decreases_to!(items@[i as int] => items@[i as int].1));
                        assert(decreases_to!(*value => items@[i as int].1));
                    }
                    inner.encode_tag(item.0, &item.1);
                    proof {
                        let s = items@.subrange(0, i + 1);
                        assert(s.drop_last() =~= items@.subrange(0, i as int));
                        assert(s.last() == items@[i as int]);
                    }
                    i = i + 1;
                }
                assert(items@.subrange(0, items@.len() as int) =~= items@);
                let inner_data = inner.finish();
                self.push_len(inner_data.len());
                self.buffer.extend_from_slice(inner_data.as_slice());
            },
            DmapValue::Raw(data) => {
                self.push_len(data.len());
                self.buffer.extend_from_slice(data.as_slice());
            },
        }
        assert(self@ =~= old(self)@ + encode_item(tag, *value));
    }

    /// Add a string tag.
    pub fn string(&mut self, tag: DmapTag, value: &str)
        ensures
            final(self)@ == old(self)@ + code_bytes(tag) + len32(encode_utf8(value@).len())
                + encode_utf8(value@),
    {
        let v = DmapValue::String(String::from_str(value));
        self.encode_tag(tag, &v);
    }

    /// Add an integer tag.
    pub fn integer(&mut self, tag: DmapTag, value: i64)
        ensures
            final(self)@ == old(self)@ + code_bytes(tag) + len32(int_bytes(value).len())
                + int_bytes(value),
    {
        self.encode_tag(tag, &DmapValue::Int(value));
    }

    /// Finish encoding and return the bytes.
    pub fn finish(self) -> (r: Vec<u8>)
        ensures
            r@ == self@,
    {
        self.buffer
    }
}

impl Default for DmapEncoder {
    fn default() -> (r: Self)
        ensures
            r@ == Seq::<u8>::empty(),
    {
        Self::new()
    }
}

/// Errors from `decode_dmap`.
#[derive(Debug, Clone, Copy, PartialEq, Eq, Structural)]
pub enum DmapDecodeError {
    /// A tag code is not valid UTF-8.
    InvalidTag,
    /// An item's length runs past the end of the data.
    UnexpectedEnd,
}

/// What `String::from_utf8_lossy` gives for bytes: the text they encode,
/// with U+FFFD in place of each invalid sequence.
pub uninterp spec fn utf8_lossy(bytes: Seq<u8>) -> Seq<char>;

/// `String::from_utf8_lossy`: valid UTF-8 is decoded as it is (as its
/// documentation states); what it gives for invalid bytes is only named.
#[verifier::external_body]
fn string_from_utf8_lossy(bytes: &[u8]) -> (r: String)
    ensures
        r@ == utf8_lossy(bytes@),
        valid_utf8(bytes@) ==> r@ == decode_utf8(bytes@),
{
    String::from_utf8_lossy(bytes).to_string()
}

/// The text of bytes as `String::from_utf8_lossy` reads them: valid UTF-8
/// as it is, anything else as that function makes of it.
pub open spec fn lossy_text(bytes: Seq<u8>) -> Seq<char> {
    if valid_utf8(bytes) {
        decode_utf8(bytes)
    } else {
        utf8_lossy(bytes)
    }
}

/// Prepends decoded items to a decoding result.
pub open spec fn prepend(
    items: Seq<(Seq<char>, Seq<char>)>,
    r: Result<Seq<(Seq<char>, Seq<char>)>, DmapDecodeError>,
) -> Result<Seq<(Seq<char>, Seq<char>)>, DmapDecodeError> {
    match r {
        Ok(rest) => Ok(items + rest),
        Err(e) => Err(e),
    }
}

/// What `decode_dmap` gives for the data from position `pos` on: items of
/// (tag, value as lossy UTF-8) until fewer than 8 bytes are left.
pub open spec fn decode_from(data: Seq<u8>, pos: nat) -> Result<
    Seq<(Seq<char>, Seq<char>)>,
    DmapDecodeError,
>
    decreases data.len() - pos,
{
    let p = pos as int;
    if pos + 8 > data.len() {
        Ok(Seq::empty())
    } else if !valid_utf8(data.subrange(p, p + 4)) {
        Err(DmapDecodeError::InvalidTag)
    } else {
        let len = be_value(data.subrange(p + 4, p + 8));
        if pos + 8 + len > data.len() {
            Err(DmapDecodeError::UnexpectedEnd)
        } else {
            prepend(
                seq![
                    (
                        decode_utf8(data.subrange(p, p + 4)),
                        lossy_text(data.subrange(p + 8, p + 8 + len)),
                    ),
                ],
                decode_from(data, pos + 8 + len),
            )
        }
    }
}

/// Decode DMAP data into (tag, value) pairs, each value read as text.
pub fn decode_dmap(data: &[u8]) -> (r: Result<Vec<(String, String)>, DmapDecodeError>)
    ensures
        match (r, decode_from(data@, 0)) {
            (Ok(v), Ok(s)) => v@.map_values(|e: (String, String)| (e.0@, e.1@)) == s,
            (Err(e), Err(f)) => e == f,
            _ => false,
        },
{
    let mut result: Vec<(String, String)> = Vec::new();
    let mut pos: usize = 0;
    let n = data.len();
    while n >= 8 && pos <= n - 8
        invariant
            n == data@.len(),
            pos <= n,
            decode_from(data@, 0) == prepend(
                result@.map_values(|e: (String, String)| (e.0@, e.1@)),
                decode_from(data@, pos as nat),
            ),
        decreases n - pos,
    {
        let ghost p0 = pos;
        let tag = match str_from_utf8(&data[pos..pos + 4]) {
            Some(t) => t,
            None => return Err(DmapDecodeError::InvalidTag),
        };
        let len = read_be(data, pos + 4, 4);
        proof {
            assert(data@.subrange(pos + 4, pos + 8) =~= data@.subrange(pos + 4, pos + 4 + 4));
        }
        pos = pos + 8;
        if len > (n - pos) as u64 {
            return Err(DmapDecodeError::UnexpectedEnd);
        }
        let l = len as usize;
        let value = string_from_utf8_lossy(&data[pos..pos + l]);
        let ghost before = result@.map_values(|e: (String, String)| (e.0@, e.1@));
        result.push((tag, value));
        pos = pos + l;
        proof {
            let after = result@.map_values(|e: (String, String)| (e.0@, e.1@));
            assert(after =~= before + seq![(tag@, value@)]);
            let item = seq![(tag@, value@)];
            assert(decode_from(data@, p0 as nat) == prepend(item, decode_from(data@, pos as nat)));
            match decode_from(data@, pos as nat) {
                Ok(rest) => {
                    assert(before + (item + rest) =~= (before + item) + rest);
                },
                Err(_) => {},
            }
        }
    }
    proof {
        assert(result@.map_values(|e: (String, String)| (e.0@, e.1@)) + Seq::empty()
            =~= result@.map_values(|e: (String, String)| (e.0@, e.1@)));
    }
    Ok(result)
}

/// Whether every item is a string whose UTF-8 fits the 32-bit length.
pub open spec fn all_short_strings(items: Seq<(DmapTag, DmapValue)>) -> bool {
    forall|i: int|
        0 <= i < items.len() ==> (#[trigger] items[i]).1 is String && encode_utf8(
            items[i].1->String_0@,
        ).len() < 0x1_0000_0000
}

/// The (tag code, text) pairs of string items.
pub open spec fn string_pairs(items: Seq<(DmapTag, DmapValue)>) -> Seq<(Seq<char>, Seq<char>)> {
    items.map_values(|e: (DmapTag, DmapValue)| (code_chars(e.0), e.1->String_0@))
}

proof fn lemma_encode_items_front(items: Seq<(DmapTag, DmapValue)>)
    requires
        items.len() > 0,
    ensures
        encode_items(items) =~= encode_item(items[0].0, items[0].1) + encode_items(
            items.subrange(1, items.len() as int),
        ),
    decreases items.len(),
{
    if items.len() > 1 {
        let d = items.drop_last();
        let t = items.subrange(1, items.len() as int);
        lemma_encode_items_front(d);
        assert(d.subrange(1, d.len() as int) =~= t.drop_last());
        assert(d[0] == items[0]);
        assert(t.last() == items.last());
        assert(encode_items(t) == encode_items(t.drop_last()) + encode_item(t.last().0, t.last().1));
    } else {
        assert(items.subrange(1, items.len() as int) =~= Seq::<(DmapTag, DmapValue)>::empty());
        assert(items.drop_last() =~= Seq::<(DmapTag, DmapValue)>::empty());
        assert(encode_items(Seq::<(DmapTag, DmapValue)>::empty()) == Seq::<u8>::empty());
        assert(items.last() == items[0]);
    }
}

proof fn lemma_code_text(tag: DmapTag)
    ensures
        code_bytes(tag) == encode_utf8(code_chars(tag)),
        valid_utf8(code_bytes(tag)),
        decode_utf8(code_bytes(tag)) == code_chars(tag),
        code_bytes(tag).len() == 4,
{
    let c = code_chars(tag);
    assert(is_ascii_chars(c));
    is_ascii_chars_encode_utf8(c);
    assert(code_bytes(tag) =~= encode_utf8(c));
    encode_utf8_valid_utf8(c);
    encode_utf8_decode_utf8(c);
}

proof fn lemma_decode_strings_from(x: Seq<u8>, items: Seq<(DmapTag, DmapValue)>)
    requires
        all_short_strings(items),
    ensures
        decode_from(x + encode_items(items), x.len()) == Ok::<
            Seq<(Seq<char>, Seq<char>)>,
            DmapDecodeError,
        >(string_pairs(items)),
    decreases items.len(),
{
    let data = x + encode_items(items);
    if items.len() == 0 {
        assert(string_pairs(items) =~= Seq::<(Seq<char>, Seq<char>)>::empty());
    } else {
        lemma_encode_items_front(items);
        let tag = items[0].0;
        let text = items[0].1->String_0@;
        let body = encode_utf8(text);
        let rest = items.subrange(1, items.len() as int);
        assert(all_short_strings(rest)) by {
            assert forall|i: int| 0 <= i < rest.len() implies (#[trigger] rest[i]).1 is String
                && encode_utf8(rest[i].1->String_0@).len() < 0x1_0000_0000 by {
                assert(rest[i] == items[i + 1]);
            }
        }
        assert(items[0].1 is String);
        lemma_code_text(tag);
        lemma_pow256_values();
        lemma_be_value_of_bytes(body.len() % 0x1_0000_0000, 4);
        lemma_be_bytes_len(body.len() % 0x1_0000_0000, 4);
        encode_utf8_valid_utf8(text);
        encode_utf8_decode_utf8(text);
        let p = x.len() as int;
        let head = encode_item(tag, items[0].1);
        assert(head =~= code_bytes(tag) + len32(body.len()) + body);
        assert(data =~= x + head + encode_items(rest));
        assert(data.subrange(p, p + 4) =~= code_bytes(tag));
        assert(data.subrange(p + 4, p + 8) =~= len32(body.len()));
        assert(data.subrange(p + 8, p + 8 + body.len()) =~= body);
        let x2 = x + head;
        lemma_decode_strings_from(x2, rest);
        assert(x2 + encode_items(rest) =~= data);
        assert(string_pairs(items) =~= seq![(code_chars(tag), text)] + string_pairs(rest));
    }
}

/// Decoding what the encoder writes for string items gives back each
/// item's tag code and its text, in order.
pub proof fn lemma_decode_encoded_strings(items: Seq<(DmapTag, DmapValue)>)
    requires
        all_short_strings(items),
    ensures
        decode_from(encode_items(items), 0) == Ok::<
            Seq<(Seq<char>, Seq<char>)>,
            DmapDecodeError,
        >(string_pairs(items)),
{
    lemma_decode_strings_from(Seq::empty(), items);
    assert(Seq::<u8>::empty() + encode_items(items) =~= encode_items(items));
}

} // verus!
