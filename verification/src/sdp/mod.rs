//! SDP session descriptions as RAOP's ANNOUNCE carries them.
use vstd::prelude::*;
use crate::text::str_eq;

pub mod raop;

verus! {

/// SDP parsing errors.
#[derive(Debug, Clone)]
pub enum SdpParseError {
    /// A required field or attribute is absent.
    MissingField(&'static str),
    /// An attribute has an invalid value.
    InvalidAttribute(String),
}

/// What an SDP error says, as the contracts see it.
pub enum SdpErrorView {
    /// A required field or attribute is absent.
    MissingField(Seq<char>),
    /// An attribute has an invalid value.
    InvalidAttribute(Seq<char>),
}

impl View for SdpParseError {
    type V = SdpErrorView;

    open spec fn view(&self) -> SdpErrorView {
        match self {
            SdpParseError::MissingField(f) => SdpErrorView::MissingField(f@),
            SdpParseError::InvalidAttribute(m) => SdpErrorView::InvalidAttribute(m@),
        }
    }
}

/// Attributes of a media description: name and optional value, in order,
/// each name at most once.
#[derive(Debug, Clone)]
pub struct SdpAttributes {
    entries: Vec<(String, Option<String>)>,
}

/// The value of an optional string.
pub open spec fn opt_str(v: Option<String>) -> Option<Seq<char>> {
    match v {
        Some(s) => Some(s@),
        None => None,
    }
}

/// Attribute entries as the contracts see them.
pub type AttrSeq = Seq<(Seq<char>, Option<Seq<char>>)>;

/// The value stored for the first attribute named `name`: `None` when there
/// is none, `Some(None)` for a flag attribute without a value.
pub open spec fn attr_lookup(a: AttrSeq, name: Seq<char>) -> Option<Option<Seq<char>>>
    decreases a.len(),
{
    if a.len() == 0 {
        None
    } else if a[0].0 == name {
        Some(a[0].1)
    } else {
        attr_lookup(a.subrange(1, a.len() as int), name)
    }
}

proof fn lemma_attr_lookup_at(a: AttrSeq, name: Seq<char>, i: int)
    requires
        0 <= i <= a.len(),
        forall|j: int| 0 <= j < i ==> (#[trigger] a[j]).0 != name,
    ensures
        attr_lookup(a, name) == if i < a.len() && a[i].0 == name {
            Some(a[i].1)
        } else {
            attr_lookup(a.subrange(i, a.len() as int), name)
        },
    decreases i,
{
    if i == 0 {
        assert(a.subrange(0, a.len() as int) =~= a);
    } else {
        let t = a.subrange(1, a.len() as int);
        assert forall|j: int| 0 <= j < i - 1 implies (#[trigger] t[j]).0 != name by {
            assert(t[j] == a[j + 1]);
        }
        lemma_attr_lookup_at(t, name, i - 1);
        assert(t.subrange(i - 1, t.len() as int) =~= a.subrange(i, a.len() as int));
    }
}

impl View for SdpAttributes {
    type V = AttrSeq;

    closed spec fn view(&self) -> AttrSeq {
        self.entries@.map_values(|e: (String, Option<String>)| (e.0@, opt_str(e.1)))
    }
}

impl SdpAttributes {
    /// No attributes.
    pub fn new() -> (r: Self)
        ensures
            r@ == Seq::<(Seq<char>, Option<Seq<char>>)>::empty(),
    {
        let r = SdpAttributes { entries: Vec::new() };
        assert(r@ =~= Seq::<(Seq<char>, Option<Seq<char>>)>::empty());
        r
    }

    fn find(&self, name: &str) -> (r: Option<usize>)
        ensures
            r matches Some(i) ==> i < self@.len() && attr_lookup(self@, name@) == Some(
                self@[i as int].1,
            ) && self@[i as int].0 == name@,
            r matches Some(i) ==> forall|j: int| 0 <= j < i ==> (#[trigger] self@[j]).0 != name@,
            r is None ==> attr_lookup(self@, name@) is None,
    {
        let mut i: usize = 0;
        while i < self.entries.len()
            invariant
                i <= self.entries@.len(),
                self@.len() == self.entries@.len(),
                forall|j: int| 0 <= j < i ==> (#[trigger] self@[j]).0 != name@,
            decreases self.entries@.len() - i,
        {
            if str_eq(self.entries[i].0.as_str(), name) {
                proof {
                    lemma_attr_lookup_at(self@, name@, i as int);
                }
                return Some(i);
            }
            i = i + 1;
        }
        proof {
            lemma_attr_lookup_at(self@, name@, i as int);
            assert(self@.subrange(i as int, self@.len() as int) =~= AttrSeq::empty());
        }
        None
    }

    /// The value of an attribute: `None` when absent, `Some(None)` for a
    /// flag attribute.
    pub fn get(&self, name: &str) -> (r: Option<&Option<String>>)
        ensures
            r matches Some(v) ==> attr_lookup(self@, name@) == Some(opt_str(*v)),
            r is None ==> attr_lookup(self@, name@) is None,
    {
        match self.find(name) {
            Some(i) => Some(&self.entries[i].1),
            None => None,
        }
    }

    /// Set an attribute, replacing the value of one with the same name.
    pub fn insert(&mut self, name: &str, value: Option<&str>)
        ensures
            attr_lookup(final(self)@, name@) == Some(
                match value {
                    Some(v) => Some(v@),
                    None => None::<Seq<char>>,
                },
            ),
            forall|other: Seq<char>|
                other != name@ ==> attr_lookup(final(self)@, other) == attr_lookup(
                    old(self)@,
                    other,
                ),
    {
        let v = match value {
            Some(s) => Some(String::from_str(s)),
            None => None,
        };
        let ghost old_view = self@;
        match self.find(name) {
            Some(i) => {
                let n = String::from_str(name);
                self.entries.set(i, (n, v));
                proof {
                    assert(self@ =~= old_view.update(i as int, (name@, opt_str(v))));
                    lemma_attr_update(old_view, i as int, name@, opt_str(v));
                    assert forall|other: Seq<char>| other != name@ implies attr_lookup(
                        self@,
                        other,
                    ) == attr_lookup(old_view, other) by {
                        lemma_attr_update_other(old_view, i as int, name@, opt_str(v), other);
                    }
                }
            },
            None => {
                self.entries.push((String::from_str(name), v));
                proof {
                    assert(self@ =~= old_view.push((name@, opt_str(v))));
                    lemma_attr_push(old_view, name@, opt_str(v));
                    assert forall|other: Seq<char>| other != name@ implies attr_lookup(
                        self@,
                        other,
                    ) == attr_lookup(old_view, other) by {
                        lemma_attr_push_other(old_view, name@, opt_str(v), other);
                    }
                }
            },
        }
    }
}

proof fn lemma_attr_update(a: AttrSeq, i: int, name: Seq<char>, v: Option<Seq<char>>)
    requires
        0 <= i < a.len(),
        a[i].0 == name,
        forall|j: int| 0 <= j < i ==> (#[trigger] a[j]).0 != name,
    ensures
        attr_lookup(a.update(i, (name, v)), name) == Some(v),
    decreases i,
{
    let b = a.update(i, (name, v));
    if i > 0 {
        let ta = a.subrange(1, a.len() as int);
        let tb = b.subrange(1, b.len() as int);
        assert(tb =~= ta.update(i - 1, (name, v)));
        assert forall|j: int| 0 <= j < i - 1 implies (#[trigger] ta[j]).0 != name by {
            assert(ta[j] == a[j + 1]);
        }
        assert(a[0].0 != name);
        lemma_attr_update(ta, i - 1, name, v);
        assert(b[0] == a[0]);
    }
}

proof fn lemma_attr_update_other(
    a: AttrSeq,
    i: int,
    name: Seq<char>,
    v: Option<Seq<char>>,
    other: Seq<char>,
)
    requires
        0 <= i < a.len(),
        a[i].0 == name,
        other != name,
    ensures
        attr_lookup(a.update(i, (name, v)), other) == attr_lookup(a, other),
    decreases i,
{
    let b = a.update(i, (name, v));
    let ta = a.subrange(1, a.len() as int);
    let tb = b.subrange(1, b.len() as int);
    if i == 0 {
        assert(tb =~= ta);
    } else {
        assert(b[0] == a[0]);
        if a[0].0 != other {
            assert(tb =~= ta.update(i - 1, (name, v)));
            lemma_attr_update_other(ta, i - 1, name, v, other);
        }
    }
}

proof fn lemma_attr_push_other(a: AttrSeq, name: Seq<char>, v: Option<Seq<char>>, other: Seq<char>)
    requires
        other != name,
    ensures
        attr_lookup(a.push((name, v)), other) == attr_lookup(a, other),
    decreases a.len(),
{
    let b = a.push((name, v));
    let tb = b.subrange(1, b.len() as int);
    if a.len() == 0 {
        assert(tb =~= AttrSeq::empty());
        assert(attr_lookup(tb, other) is None);
        assert(b[0] == (name, v));
    } else {
        let ta = a.subrange(1, a.len() as int);
        assert(b[0] == a[0]);
        if a[0].0 != other {
            assert(tb =~= ta.push((name, v)));
            lemma_attr_push_other(ta, name, v, other);
        }
    }
}

proof fn lemma_attr_push(a: AttrSeq, name: Seq<char>, v: Option<Seq<char>>)
    requires
        attr_lookup(a, name) is None,
    ensures
        attr_lookup(a.push((name, v)), name) == Some(v),
    decreases a.len(),
{
    let b = a.push((name, v));
    if a.len() == 0 {
        assert(b.subrange(1, b.len() as int) =~= AttrSeq::empty());
    } else {
        let ta = a.subrange(1, a.len() as int);
        assert(b.subrange(1, b.len() as int) =~= ta.push((name, v)));
        assert(b[0] == a[0]);
        lemma_attr_push(ta, name, v);
    }
}

/// The text value of an attribute of a media description: `None` when the
/// attribute is absent or a flag without a value.
pub open spec fn attr_text(m: MediaDescription, name: Seq<char>) -> Option<Seq<char>> {
    match attr_lookup(m.attributes@, name) {
        Some(Some(v)) => Some(v),
        _ => None,
    }
}

/// A media description (`m=` line and its attributes).
#[derive(Debug, Clone)]
pub struct MediaDescription {
    /// Media type (`audio`, `video`, ...).
    pub media_type: String,
    /// Attributes (`a=name:value` lines).
    pub attributes: SdpAttributes,
}

/// A session description.
#[derive(Debug, Clone)]
pub struct SessionDescription {
    /// Media descriptions in order.
    pub media: Vec<MediaDescription>,
}

/// The index of the first media description of type `audio`.
pub open spec fn first_audio(media: Seq<MediaDescription>, i: int) -> Option<int>
    decreases media.len() - i,
{
    if i < 0 || i >= media.len() {
        None
    } else if media[i].media_type@ == "audio"@ {
        Some(i)
    } else {
        first_audio(media, i + 1)
    }
}

impl SessionDescription {
    /// The first audio media description.
    pub fn audio_media(&self) -> (r: Option<&MediaDescription>)
        ensures
            r matches Some(m) ==> first_audio(self.media@, 0) matches Some(i) && *m
                == self.media@[i],
            r is None ==> first_audio(self.media@, 0) is None,
    {
        let mut i: usize = 0;
        while i < self.media.len()
            invariant
                i <= self.media@.len(),
                first_audio(self.media@, 0) == first_audio(self.media@, i as int),
            decreases self.media@.len() - i,
        {
            if str_eq(self.media[i].media_type.as_str(), "audio") {
                return Some(&self.media[i]);
            }
            i = i + 1;
        }
        None
    }
}

} // verus!
