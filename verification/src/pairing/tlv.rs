//! TLV8 encoding as used by HomeKit and AirPlay pairing: each item is a
//! type byte, a length byte and up to 255 value bytes; longer values are
//! split into consecutive items of the same type, and a decoder joins the
//! values of all items of a type back together.
use vstd::prelude::*;

pub mod errors;
pub mod methods;

verus! {

/// TLV item types.
#[derive(Debug, Clone, Copy, PartialEq, Eq, Structural)]
pub enum TlvType {
    /// Pairing method
    Method,
    /// Pairing identifier
    Identifier,
    /// SRP salt
    Salt,
    /// Public key
    PublicKey,
    /// Proof
    Proof,
    /// Encrypted data
    EncryptedData,
    /// Pairing state (step number)
    State,
    /// Error code
    Error,
    /// Retry delay
    RetryDelay,
    /// Certificate
    Certificate,
    /// Signature
    Signature,
    /// Permissions
    Permissions,
    /// Fragment data
    FragmentData,
    /// Last fragment
    FragmentLast,
    /// Flags
    Flags,
    /// Separator
    Separator,
}

impl TlvType {
    /// The type's byte on the wire.
    pub open spec fn spec_byte(self) -> u8 {
        match self {
            TlvType::Method => 0x00,
            TlvType::Identifier => 0x01,
            TlvType::Salt => 0x02,
            TlvType::PublicKey => 0x03,
            TlvType::Proof => 0x04,
            TlvType::EncryptedData => 0x05,
            TlvType::State => 0x06,
            TlvType::Error => 0x07,
            TlvType::RetryDelay => 0x08,
            TlvType::Certificate => 0x09,
            TlvType::Signature => 0x0A,
            TlvType::Permissions => 0x0B,
            TlvType::FragmentData => 0x0C,
            TlvType::FragmentLast => 0x0D,
            TlvType::Flags => 0x13,
            TlvType::Separator => 0xFF,
        }
    }

    /// The type's byte on the wire.
    pub fn as_u8(self) -> (r: u8)
        ensures
            r == self.spec_byte(),
    {
        match self {
            TlvType::Method => 0x00,
            TlvType::Identifier => 0x01,
            TlvType::Salt => 0x02,
            TlvType::PublicKey => 0x03,
            TlvType::Proof => 0x04,
            TlvType::EncryptedData => 0x05,
            TlvType::State => 0x06,
            TlvType::Error => 0x07,
            TlvType::RetryDelay => 0x08,
            TlvType::Certificate => 0x09,
            TlvType::Signature => 0x0A,
            TlvType::Permissions => 0x0B,
            TlvType::FragmentData => 0x0C,
            TlvType::FragmentLast => 0x0D,
            TlvType::Flags => 0x13,
            TlvType::Separator => 0xFF,
        }
    }
}

/// TLV errors.
#[derive(Debug, Clone, Copy, PartialEq, Eq, Structural)]
pub enum TlvError {
    /// The data ends inside an item.
    BufferTooShort,
    /// A required item is absent.
    MissingField(TlvType),
    /// An item holds a value of the wrong size.
    InvalidValue(TlvType),
}

/// The items that `value` is written as: pieces of at most 255 bytes, each
/// preceded by the type and its length; an empty value is one empty item.
pub open spec fn encode_item(t: u8, value: Seq<u8>) -> Seq<u8>
    decreases value.len(),
{
    if value.len() <= 255 {
        seq![t, value.len() as u8] + value
    } else {
        seq![t, 255u8] + value.subrange(0, 255) + encode_item(
            t,
            value.subrange(255, value.len() as int),
        )
    }
}

/// The (type, value) items of `data`, or `None` when an item is cut off.
pub open spec fn parse_items(data: Seq<u8>) -> Option<Seq<(u8, Seq<u8>)>>
    decreases data.len(),
{
    if data.len() == 0 {
        Some(Seq::empty())
    } else if data.len() < 2 || data.len() < 2 + data[1] {
        None
    } else {
        let n = data[1] as int;
        match parse_items(data.subrange(2 + n, data.len() as int)) {
            Some(rest) => Some(seq![(data[0], data.subrange(2, 2 + n))] + rest),
            None => None,
        }
    }
}

/// The values of all items of type `t`, joined in order, or `None` when
/// there is no such item.
pub open spec fn lookup(items: Seq<(u8, Seq<u8>)>, t: u8) -> Option<Seq<u8>>
    decreases items.len(),
{
    if items.len() == 0 {
        None
    } else {
        let rest = lookup(items.drop_last(), t);
        if items.last().0 == t {
            match rest {
                Some(v) => Some(v + items.last().1),
                None => Some(items.last().1),
            }
        } else {
            rest
        }
    }
}

/// TLV8 encoder.
pub struct TlvEncoder {
    buf: Vec<u8>,
}

impl View for TlvEncoder {
    type V = Seq<u8>;

    closed spec fn view(&self) -> Seq<u8> {
        self.buf@
    }
}

impl TlvEncoder {
    /// A new, empty encoder.
    pub fn new() -> (r: Self)
        ensures
            r@ == Seq::<u8>::empty(),
    {
        TlvEncoder { buf: Vec::new() }
    }

    /// Add an item, split into pieces of at most 255 bytes.
    pub fn add(self, t: TlvType, data: &[u8]) -> (r: Self)
        ensures
            r@ == self@ + encode_item(t.spec_byte(), data@),
    {
        let mut s = self;
        let tb = t.as_u8();
        let ghost start = s.buf@;
        let mut pos: usize = 0;
        let n = data.len();
        assert(data@.subrange(0, n as int) =~= data@);
        while n - pos > 255
            invariant
                pos <= n,
                n == data@.len(),
                start + encode_item(tb, data@) == s.buf@ + encode_item(
                    tb,
                    data@.subrange(pos as int, n as int),
                ),
            decreases n - pos,
        {
            let ghost before = s.buf@;
            s.buf.push(tb);
            s.buf.push(255);
            s.buf.extend_from_slice(&data[pos..pos + 255]);
            proof {
                let rest = data@.subrange(pos as int, n as int);
                assert(rest.subrange(0, 255) =~= data@.subrange(pos as int, pos + 255));
                assert(rest.subrange(255, rest.len() as int) =~= data@.subrange(pos + 255, n as int));
                assert(encode_item(tb, rest) == seq![tb, 255u8] + rest.subrange(0, 255) + encode_item(
                    tb,
                    rest.subrange(255, rest.len() as int),
                ));
                assert(s.buf@ =~= before + seq![tb, 255u8] + rest.subrange(0, 255));
                assert(s.buf@ + encode_item(tb, data@.subrange(pos + 255, n as int)) =~= before
                    + encode_item(tb, rest));
            }
            pos = pos + 255;
        }
        let len = (n - pos) as u8;
        s.buf.push(tb);
        s.buf.push(len);
        s.buf.extend_from_slice(&data[pos..n]);
        proof {
            let rest = data@.subrange(pos as int, n as int);
            assert(encode_item(tb, rest) =~= seq![tb, len] + rest);
        }
        assert(s.buf@ =~= start + encode_item(tb, data@));
        s
    }

    /// Add an item holding one byte.
    pub fn add_byte(self, t: TlvType, value: u8) -> (r: Self)
        ensures
            r@ == self@ + seq![t.spec_byte(), 1u8, value],
    {
        let v: [u8; 1] = [value];
        let r = self.add(t, v.as_slice());
        proof {
            assert(encode_item(t.spec_byte(), seq![value]) =~= seq![t.spec_byte(), 1u8, value]);
        }
        r
    }

    /// Add the State item.
    pub fn add_state(self, state: u8) -> (r: Self)
        ensures
            r@ == self@ + seq![TlvType::State.spec_byte(), 1u8, state],
    {
        let v: [u8; 1] = [state];
        let r = self.add(TlvType::State, v.as_slice());
        proof {
            assert(encode_item(6, seq![state]) =~= seq![6u8, 1u8, state]);
        }
        r
    }

    /// Add the Method item.
    pub fn add_method(self, method: u8) -> (r: Self)
        ensures
            r@ == self@ + seq![TlvType::Method.spec_byte(), 1u8, method],
    {
        let v: [u8; 1] = [method];
        let r = self.add(TlvType::Method, v.as_slice());
        proof {
            assert(encode_item(0, seq![method]) =~= seq![0u8, 1u8, method]);
        }
        r
    }

    /// The encoded bytes.
    pub fn build(self) -> (r: Vec<u8>)
        ensures
            r@ == self@,
    {
        self.buf
    }
}

/// The value of the first entry of type `t`.
pub open spec fn find_entry(es: Seq<(u8, Seq<u8>)>, t: u8) -> Option<Seq<u8>>
    decreases es.len(),
{
    if es.len() == 0 {
        None
    } else if es[0].0 == t {
        Some(es[0].1)
    } else {
        find_entry(es.subrange(1, es.len() as int), t)
    }
}

proof fn lemma_find_entry_index(es: Seq<(u8, Seq<u8>)>, t: u8)
    ensures
        find_entry(es, t) is None <==> forall|j: int| 0 <= j < es.len() ==> (#[trigger] es[j]).0 != t,
        find_entry(es, t) matches Some(v) ==> exists|i: int|
            0 <= i < es.len() && es[i].0 == t && es[i].1 == v && forall|j: int|
                0 <= j < i ==> (#[trigger] es[j]).0 != t,
    decreases es.len(),
{
    if es.len() > 0 {
        let tail = es.subrange(1, es.len() as int);
        lemma_find_entry_index(tail, t);
        if es[0].0 == t {
            assert(forall|j: int| 0 <= j < 0 ==> (#[trigger] es[j]).0 != t);
        } else {
            assert forall|j: int| 0 <= j < es.len() && (#[trigger] es[j]).0 == t implies exists|k: int|
                0 <= k < tail.len() && tail[k].0 == t by {
                assert(tail[j - 1] == es[j]);
            }
            if find_entry(tail, t) is Some {
                let v = find_entry(tail, t).unwrap();
                let i = choose|i: int|
                    0 <= i < tail.len() && tail[i].0 == t && tail[i].1 == v && forall|j: int|
                        0 <= j < i ==> (#[trigger] tail[j]).0 != t;
                assert(es[i + 1] == tail[i]);
                assert forall|j: int| 0 <= j < i + 1 implies (#[trigger] es[j]).0 != t by {
                    if j > 0 {
                        assert(es[j] == tail[j - 1]);
                    }
                }
            } else {
                assert forall|j: int| 0 <= j < es.len() implies (#[trigger] es[j]).0 != t by {
                    if j > 0 {
                        assert(es[j] == tail[j - 1]);
                    }
                }
            }
        }
    }
}

proof fn lemma_find_entry_at(es: Seq<(u8, Seq<u8>)>, t: u8, i: int)
    requires
        0 <= i < es.len(),
        es[i].0 == t,
        forall|j: int| 0 <= j < i ==> (#[trigger] es[j]).0 != t,
    ensures
        find_entry(es, t) == Some(es[i].1),
    decreases i,
{
    if i > 0 {
        let tail = es.subrange(1, es.len() as int);
        assert forall|j: int| 0 <= j < i - 1 implies (#[trigger] tail[j]).0 != t by {
            assert(tail[j] == es[j + 1]);
        }
        lemma_find_entry_at(tail, t, i - 1);
    }
}

proof fn lemma_find_entry_update(es: Seq<(u8, Seq<u8>)>, i: int, t: u8, v: Seq<u8>, u: u8)
    requires
        0 <= i < es.len(),
        es[i].0 == t,
        forall|j: int| 0 <= j < i ==> (#[trigger] es[j]).0 != t,
    ensures
        find_entry(es.update(i, (t, v)), u) == if u == t {
            Some(v)
        } else {
            find_entry(es, u)
        },
{
    let es2 = es.update(i, (t, v));
    lemma_find_entry_index(es, t);
    lemma_find_entry_index(es, u);
    lemma_find_entry_index(es2, u);
    if u == t {
        assert forall|j: int| 0 <= j < i implies (#[trigger] es2[j]).0 != t by {
            assert(es2[j] == es[j]);
        }
        lemma_find_entry_at(es2, t, i);
    } else {
        match find_entry(es, u) {
            Some(w) => {
                let k = choose|k: int|
                    0 <= k < es.len() && es[k].0 == u && es[k].1 == w && forall|j: int|
                        0 <= j < k ==> (#[trigger] es[j]).0 != u;
                assert(k != i);
                lemma_find_entry_at(es, t, i);
                assert forall|j: int| 0 <= j < k implies (#[trigger] es2[j]).0 != u by {
                    if j != i {
                        assert(es2[j] == es[j]);
                    }
                }
                assert(es2[k] == es[k]);
                lemma_find_entry_at(es2, u, k);
            },
            None => {
                assert forall|j: int| 0 <= j < es2.len() implies (#[trigger] es2[j]).0 != u by {
                    if j != i {
                        assert(es2[j] == es[j]);
                    }
                }
            },
        }
    }
}

proof fn lemma_find_entry_push(es: Seq<(u8, Seq<u8>)>, t: u8, v: Seq<u8>, u: u8)
    requires
        find_entry(es, t) is None,
    ensures
        find_entry(es.push((t, v)), u) == if u == t {
            Some(v)
        } else {
            find_entry(es, u)
        },
{
    let es2 = es.push((t, v));
    lemma_find_entry_index(es, t);
    lemma_find_entry_index(es, u);
    lemma_find_entry_index(es2, u);
    if u == t {
        assert forall|j: int| 0 <= j < es.len() implies (#[trigger] es2[j]).0 != t by {
            assert(es2[j] == es[j]);
        }
        lemma_find_entry_at(es2, t, es.len() as int);
    } else {
        match find_entry(es, u) {
            Some(w) => {
                let k = choose|k: int|
                    0 <= k < es.len() && es[k].0 == u && es[k].1 == w && forall|j: int|
                        0 <= j < k ==> (#[trigger] es[j]).0 != u;
                assert forall|j: int| 0 <= j < k implies (#[trigger] es2[j]).0 != u by {
                    assert(es2[j] == es[j]);
                }
                assert(es2[k] == es[k]);
                lemma_find_entry_at(es2, u, k);
            },
            None => {
                assert forall|j: int| 0 <= j < es2.len() implies (#[trigger] es2[j]).0 != u by {
                    if j < es.len() {
                        assert(es2[j] == es[j]);
                    }
                }
            },
        }
    }
}

/// TLV8 decoder: the joined value of each type that occurs.
pub struct TlvDecoder {
    entries: Vec<(u8, Vec<u8>)>,
}

impl TlvDecoder {
    /// The joined value of type `t`, if it occurs.
    pub closed spec fn value_of(&self, t: u8) -> Option<Seq<u8>> {
        find_entry(self.entries@.map_values(|e: (u8, Vec<u8>)| (e.0, e.1@)), t)
    }

    fn find(&self, t: u8) -> (r: Option<usize>)
        ensures
            r matches Some(i) ==> i < self.entries@.len() && self.value_of(t) == Some(
                self.entries@[i as int].1@,
            ) && self.entries@[i as int].0 == t && forall|j: int|
                0 <= j < i ==> (#[trigger] self.entries@[j]).0 != t,
            r is None ==> self.value_of(t) is None,
    {
        let ghost es = self.entries@.map_values(|e: (u8, Vec<u8>)| (e.0, e.1@));
        let mut i: usize = 0;
        while i < self.entries.len()
            invariant
                i <= self.entries@.len(),
                es == self.entries@.map_values(|e: (u8, Vec<u8>)| (e.0, e.1@)),
                forall|j: int| 0 <= j < i ==> (#[trigger] es[j]).0 != t,
                forall|j: int| 0 <= j < i ==> (#[trigger] self.entries@[j]).0 != t,
            decreases self.entries@.len() - i,
        {
            if self.entries[i].0 == t {
                proof {
                    lemma_find_entry_at(es, t, i as int);
                }
                return Some(i);
            }
            proof {
                assert(es[i as int].0 == self.entries@[i as int].0);
            }
            i = i + 1;
        }
        proof {
            lemma_find_entry_index(es, t);
        }
        None
    }

    /// The joined value of a type, if it occurs.
    pub fn get(&self, t: TlvType) -> (r: Option<&[u8]>)
        ensures
            r matches Some(v) ==> self.value_of(t.spec_byte()) == Some(v@),
            r is None ==> self.value_of(t.spec_byte()) is None,
    {
        match self.find(t.as_u8()) {
            Some(i) => Some(self.entries[i].1.as_slice()),
            None => None,
        }
    }

    /// The joined value of a type that must occur.
    pub fn get_required(&self, t: TlvType) -> (r: Result<&[u8], TlvError>)
        ensures
            r matches Ok(v) ==> self.value_of(t.spec_byte()) == Some(v@),
            r is Err <==> self.value_of(t.spec_byte()) is None,
            r matches Err(e) ==> e == TlvError::MissingField(t),
    {
        match self.get(t) {
            Some(v) => Ok(v),
            None => Err(TlvError::MissingField(t)),
        }
    }

    /// The State item, which must be a single byte.
    pub fn get_state(&self) -> (r: Result<u8, TlvError>)
        ensures
            match self.value_of(TlvType::State.spec_byte()) {
                None => r == Err::<u8, TlvError>(TlvError::MissingField(TlvType::State)),
                Some(v) => if v.len() == 1 {
                    r == Ok::<u8, TlvError>(v[0])
                } else {
                    r == Err::<u8, TlvError>(TlvError::InvalidValue(TlvType::State))
                },
            },
    {
        match self.get(TlvType::State) {
            Some(v) => if v.len() == 1 {
                Ok(v[0])
            } else {
                Err(TlvError::InvalidValue(TlvType::State))
            },
            None => Err(TlvError::MissingField(TlvType::State)),
        }
    }

    /// Whether an Error item is present.
    pub fn has_error(&self) -> (r: bool)
        ensures
            r == self.value_of(TlvType::Error.spec_byte()) is Some,
    {
        self.get(TlvType::Error).is_some()
    }

    /// The error code of a single-byte Error item.
    pub fn get_error(&self) -> (r: Option<u8>)
        ensures
            r == match self.value_of(TlvType::Error.spec_byte()) {
                Some(v) => if v.len() == 1 {
                    Some(v[0])
                } else {
                    None::<u8>
                },
                None => None::<u8>,
            },
    {
        match self.get(TlvType::Error) {
            Some(v) => if v.len() == 1 {
                Some(v[0])
            } else {
                None
            },
            None => None,
        }
    }

    /// Decode TLV8 data, joining the values of items of the same type.
    pub fn decode(data: &[u8]) -> (r: Result<Self, TlvError>)
        ensures
            r is Ok <==> parse_items(data@) is Some,
            r matches Ok(d) ==> forall|t: u8| #[trigger] d.value_of(t) == lookup(
                parse_items(data@).unwrap(),
                t,
            ),
            r matches Err(e) ==> e == TlvError::BufferTooShort,
    {
        let mut d = TlvDecoder { entries: Vec::new() };
        let n = data.len();
        let mut pos: usize = 0;
        let ghost mut items: Seq<(u8, Seq<u8>)> = Seq::empty();
        assert(data@.subrange(0, n as int) =~= data@);
        while pos < n
            invariant
                pos <= n,
                n == data@.len(),
                parse_items(data@) == match parse_items(data@.subrange(pos as int, n as int)) {
                    Some(rest) => Some(items + rest),
                    None => None::<Seq<(u8, Seq<u8>)>>,
                },
                forall|t: u8| #[trigger] d.value_of(t) == lookup(items, t),
            decreases n - pos,
        {
            let ghost rest = data@.subrange(pos as int, n as int);
            if n - pos < 2 {
                return Err(TlvError::BufferTooShort);
            }
            let t = data[pos];
            let len = data[pos + 1] as usize;
            if n - pos - 2 < len {
                return Err(TlvError::BufferTooShort);
            }
            let value = &data[pos + 2..pos + 2 + len];
            proof {
                assert(rest[1] == len);
                assert(rest.subrange(2 + len, rest.len() as int) =~= data@.subrange(
                    pos + 2 + len,
                    n as int,
                ));
                assert(rest.subrange(2, 2 + len) =~= value@);
            }
            let ghost es0 = d.entries@.map_values(|e: (u8, Vec<u8>)| (e.0, e.1@));
            let ghost new_items = items.push((t, value@));
            proof {
                assert(new_items.drop_last() =~= items);
            }
            let ghost old_entries = d.entries@;
            proof {
                assert forall|u: u8| #[trigger] find_entry(es0, u) == lookup(items, u) by {
                    assert(d.value_of(u) == find_entry(es0, u));
                }
            }
            match d.find(t) {
                Some(i) => {
                    let mut e: (u8, Vec<u8>) = (t, Vec::new());
                    d.entries.set_and_swap(i, &mut e);
                    let ghost prev = e.1@;
                    e.1.extend_from_slice(value);
                    assert(e.1@ =~= prev + value@);
                    d.entries.set(i, e);
                    proof {
                        assert forall|j: int| 0 <= j < i implies (#[trigger] es0[j]).0 != t by {
                            assert(es0[j].0 == old_entries[j].0);
                        }
                        let es1 = d.entries@.map_values(|e: (u8, Vec<u8>)| (e.0, e.1@));
                        assert(es1 =~= es0.update(i as int, (t, prev + value@)));
                        assert(find_entry(es0, t) == Some(prev));
                        assert forall|u: u8| #[trigger] d.value_of(u) == lookup(new_items, u) by {
                            lemma_find_entry_update(es0, i as int, t, prev + value@, u);
                            assert(find_entry(es0, u) == lookup(items, u));
                        }
                    }
                },
                None => {
                    d.entries.push((t, crate::bytes::copy_bytes(value)));
                    proof {
                        let es1 = d.entries@.map_values(|e: (u8, Vec<u8>)| (e.0, e.1@));
                        assert(es1 =~= es0.push((t, value@)));
                        assert(find_entry(es0, t) is None);
                        assert forall|u: u8| #[trigger] d.value_of(u) == lookup(new_items, u) by {
                            lemma_find_entry_push(es0, t, value@, u);
                            assert(find_entry(es0, u) == lookup(items, u));
                        }
                    }
                },
            }
            proof {
                items = new_items;
            }
            pos = pos + 2 + len;
        }
        proof {
            assert(data@.subrange(n as int, n as int) =~= Seq::<u8>::empty());
            assert(items + Seq::<(u8, Seq<u8>)>::empty() =~= items);
        }
        Ok(d)
    }
}

proof fn lemma_parse_encoded(t: u8, value: Seq<u8>, rest: Seq<u8>)
    ensures
        parse_items(encode_item(t, value) + rest) == match parse_items(rest) {
            Some(r) => Some(fragments(t, value) + r),
            None => None::<Seq<(u8, Seq<u8>)>>,
        },
    decreases value.len(),
{
    let e = encode_item(t, value);
    let d = e + rest;
    if value.len() <= 255 {
        let n = value.len() as int;
        assert(d[1] == value.len() as u8);
        assert(d.subrange(2, 2 + n) =~= value);
        assert(d.subrange(2 + n, d.len() as int) =~= rest);
    } else {
        let tail = value.subrange(255, value.len() as int);
        lemma_parse_encoded(t, tail, rest);
        assert(e =~= seq![t, 255u8] + value.subrange(0, 255) + encode_item(t, tail));
        assert(d[1] == 255u8);
        assert(d.subrange(2, 257) =~= value.subrange(0, 255));
        assert(d.subrange(257, d.len() as int) =~= encode_item(t, tail) + rest);
        match parse_items(rest) {
            Some(r) => {
                assert(seq![(t, value.subrange(0, 255))] + (fragments(t, tail) + r) =~= fragments(
                    t,
                    value,
                ) + r);
            },
            None => {},
        }
    }
}

/// The items that `encode_item` splits a value into.
pub open spec fn fragments(t: u8, value: Seq<u8>) -> Seq<(u8, Seq<u8>)>
    decreases value.len(),
{
    if value.len() <= 255 {
        seq![(t, value)]
    } else {
        seq![(t, value.subrange(0, 255))] + fragments(t, value.subrange(255, value.len() as int))
    }
}

proof fn lemma_lookup_concat(a: Seq<(u8, Seq<u8>)>, b: Seq<(u8, Seq<u8>)>, u: u8)
    ensures
        lookup(a + b, u) == match (lookup(a, u), lookup(b, u)) {
            (Some(x), Some(y)) => Some(x + y),
            (Some(x), None) => Some(x),
            (None, y) => y,
        },
    decreases b.len(),
{
    if b.len() == 0 {
        assert(a + b =~= a);
    } else {
        lemma_lookup_concat(a, b.drop_last(), u);
        assert((a + b).drop_last() =~= a + b.drop_last());
        assert((a + b).last() == b.last());
        match (lookup(a, u), lookup(b.drop_last(), u)) {
            (Some(x), Some(y)) => {
                if b.last().0 == u {
                    assert(x + y + b.last().1 =~= x + (y + b.last().1));
                }
            },
            _ => {},
        }
    }
}

proof fn lemma_lookup_fragments(t: u8, value: Seq<u8>, u: u8)
    ensures
        lookup(fragments(t, value), u) == if u == t {
            Some(value)
        } else {
            None::<Seq<u8>>
        },
    decreases value.len(),
{
    assert(lookup(Seq::<(u8, Seq<u8>)>::empty(), u) is None);
    if value.len() <= 255 {
        assert(fragments(t, value).drop_last() =~= Seq::<(u8, Seq<u8>)>::empty());
        assert(fragments(t, value).last() == (t, value));
    } else {
        let head = value.subrange(0, 255);
        let tail = value.subrange(255, value.len() as int);
        lemma_lookup_fragments(t, tail, u);
        lemma_lookup_concat(seq![(t, head)], fragments(t, tail), u);
        assert(seq![(t, head)].drop_last() =~= Seq::<(u8, Seq<u8>)>::empty());
        assert(seq![(t, head)].last() == (t, head));
        assert(lookup(seq![(t, head)], u) == if u == t {
            Some(head)
        } else {
            None::<Seq<u8>>
        });
        if u == t {
            assert(head + tail =~= value);
        }
    }
}

/// Decoding an encoded value gives it back, whatever its length: the
/// pieces of at most 255 bytes are joined again, and no other type occurs.
pub proof fn lemma_encode_decode(t: u8, value: Seq<u8>, u: u8)
    ensures
        parse_items(encode_item(t, value)) is Some,
        lookup(parse_items(encode_item(t, value)).unwrap(), u) == if u == t {
            Some(value)
        } else {
            None::<Seq<u8>>
        },
{
    lemma_parse_encoded(t, value, Seq::empty());
    assert(encode_item(t, value) + Seq::<u8>::empty() =~= encode_item(t, value));
    assert(fragments(t, value) + Seq::<(u8, Seq<u8>)>::empty() =~= fragments(t, value));
    lemma_lookup_fragments(t, value, u);
}

} // verus!
