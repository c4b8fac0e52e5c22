//! RTSP headers: an ordered list of name/value pairs whose names are
//! matched without ASCII case.
use vstd::prelude::*;
use crate::text::{eq_ignore_ascii_case, parse_u64, str_eq_ignore_ascii_case, unsigned_value};

pub mod names;

verus! {

/// Header entries as the contracts see them: (name, value) pairs in order.
pub type HeaderSeq = Seq<(Seq<char>, Seq<char>)>;

/// The index of the first entry at or after `i` whose name matches `name`.
pub open spec fn first_match_from(h: HeaderSeq, name: Seq<char>, i: int) -> Option<int>
    decreases h.len() - i,
{
    if i < 0 || i >= h.len() {
        None
    } else if eq_ignore_ascii_case(h[i].0, name) {
        Some(i)
    } else {
        first_match_from(h, name, i + 1)
    }
}

/// The index of the first entry whose name matches `name`.
pub open spec fn first_match(h: HeaderSeq, name: Seq<char>) -> Option<int> {
    first_match_from(h, name, 0)
}

/// The value of the first entry whose name matches `name`.
pub open spec fn spec_get(h: HeaderSeq, name: Seq<char>) -> Option<Seq<char>> {
    match first_match(h, name) {
        Some(i) => Some(h[i].1),
        None => None,
    }
}

/// The entries after inserting `name: value`: the first entry whose name
/// matches takes the new value (and keeps its spelling), or the pair is
/// appended.
pub open spec fn spec_insert(h: HeaderSeq, name: Seq<char>, value: Seq<char>) -> HeaderSeq {
    match first_match(h, name) {
        Some(i) => h.update(i, (h[i].0, value)),
        None => h.push((name, value)),
    }
}

/// The number a header's value denotes as `str::parse` reads it, if it is
/// present, parses and is at most `max`.
pub open spec fn spec_number(h: HeaderSeq, name: Seq<char>, max: nat) -> Option<nat> {
    match spec_get(h, name) {
        Some(v) => match unsigned_value(v) {
            Some(n) => if n <= max {
                Some(n)
            } else {
                None
            },
            None => None,
        },
        None => None,
    }
}

proof fn lemma_first_match_from_props(h: HeaderSeq, name: Seq<char>, i: int)
    requires
        0 <= i,
    ensures
        first_match_from(h, name, i) matches Some(k) ==> i <= k < h.len() && eq_ignore_ascii_case(
            h[k].0,
            name,
        ) && forall|j: int| i <= j < k ==> !eq_ignore_ascii_case(#[trigger] h[j].0, name),
        first_match_from(h, name, i) is None ==> forall|j: int|
            i <= j < h.len() ==> !eq_ignore_ascii_case(#[trigger] h[j].0, name),
    decreases h.len() - i,
{
    if i < h.len() && !eq_ignore_ascii_case(h[i].0, name) {
        lemma_first_match_from_props(h, name, i + 1);
    }
}

/// `first_match` finds the first entry whose name matches, and only it.
pub proof fn lemma_first_match(h: HeaderSeq, name: Seq<char>)
    ensures
        first_match(h, name) matches Some(k) ==> 0 <= k < h.len() && eq_ignore_ascii_case(
            h[k].0,
            name,
        ) && forall|j: int| 0 <= j < k ==> !eq_ignore_ascii_case(#[trigger] h[j].0, name),
        first_match(h, name) is None ==> forall|j: int|
            0 <= j < h.len() ==> !eq_ignore_ascii_case(#[trigger] h[j].0, name),
{
    lemma_first_match_from_props(h, name, 0);
}

proof fn lemma_first_match_unique(h: HeaderSeq, name: Seq<char>, k: int)
    requires
        0 <= k < h.len(),
        eq_ignore_ascii_case(h[k].0, name),
        forall|j: int| 0 <= j < k ==> !eq_ignore_ascii_case(#[trigger] h[j].0, name),
    ensures
        first_match(h, name) == Some(k),
{
    lemma_first_match(h, name);
    match first_match(h, name) {
        Some(m) => {
            if m < k {
                assert(!eq_ignore_ascii_case(h[m].0, name));
            } else if m > k {
                assert(!eq_ignore_ascii_case(h[k].0, name));
            }
        },
        None => {
            assert(!eq_ignore_ascii_case(h[k].0, name));
        },
    }
}

/// Two names that match each other are found at the same entry.
proof fn lemma_first_match_same_class(h: HeaderSeq, a: Seq<char>, b: Seq<char>)
    requires
        eq_ignore_ascii_case(a, b),
    ensures
        first_match(h, a) == first_match(h, b),
{
    lemma_first_match(h, a);
    lemma_first_match(h, b);
    crate::text::lemma_eq_ignore_case_symmetric(a, b);
    assert forall|j: int| 0 <= j < h.len() implies eq_ignore_ascii_case(#[trigger] h[j].0, a)
        == eq_ignore_ascii_case(h[j].0, b) by {
        if eq_ignore_ascii_case(h[j].0, a) {
            crate::text::lemma_eq_ignore_case_transitive(h[j].0, a, b);
        }
        if eq_ignore_ascii_case(h[j].0, b) {
            crate::text::lemma_eq_ignore_case_transitive(h[j].0, b, a);
        }
    }
    match first_match(h, a) {
        Some(k) => lemma_first_match_unique(h, b, k),
        None => {},
    }
}

/// A read after an insert: a name that matches the inserted one gives the
/// inserted value; any other name gives what it gave before.
pub proof fn lemma_get_insert(h: HeaderSeq, name: Seq<char>, value: Seq<char>, other: Seq<char>)
    ensures
        eq_ignore_ascii_case(other, name) ==> spec_get(spec_insert(h, name, value), other) == Some(
            value,
        ),
        !eq_ignore_ascii_case(other, name) ==> spec_get(spec_insert(h, name, value), other)
            == spec_get(h, other),
{
    let h2 = spec_insert(h, name, value);
    lemma_first_match(h, name);
    lemma_first_match(h, other);
    lemma_first_match(h2, other);
    crate::text::lemma_eq_ignore_case_symmetric(other, name);
    if eq_ignore_ascii_case(other, name) {
        lemma_first_match_same_class(h, other, name);
        lemma_first_match_same_class(h2, other, name);
        match first_match(h, name) {
            Some(k) => {
                assert forall|j: int| 0 <= j < k implies !eq_ignore_ascii_case(
                    #[trigger] h2[j].0,
                    name,
                ) by {
                    assert(h2[j] == h[j]);
                }
                lemma_first_match_unique(h2, name, k);
            },
            None => {
                let k = h.len() as int;
                assert forall|j: int| 0 <= j < k implies !eq_ignore_ascii_case(
                    #[trigger] h2[j].0,
                    name,
                ) by {
                    assert(h2[j] == h[j]);
                }
                assert(h2[k].0 == name);
                assert(eq_ignore_ascii_case(name, name));
                lemma_first_match_unique(h2, name, k);
            },
        }
    } else {
        match first_match(h, name) {
            Some(k) => {
                assert forall|j: int| 0 <= j < h2.len() implies eq_ignore_ascii_case(
                    #[trigger] h2[j].0,
                    other,
                ) == eq_ignore_ascii_case(h[j].0, other) by {
                    assert(h2[j].0 == h[j].0);
                }
                match first_match(h, other) {
                    Some(m) => {
                        if m == k {
                            crate::text::lemma_eq_ignore_case_symmetric(h[k].0, other);
                            crate::text::lemma_eq_ignore_case_transitive(other, h[k].0, name);
                        }
                        lemma_first_match_unique(h2, other, m);
                    },
                    None => {},
                }
            },
            None => {
                assert(h2[h.len() as int].0 == name);
                if eq_ignore_ascii_case(name, other) {
                    crate::text::lemma_eq_ignore_case_symmetric(name, other);
                }
                match first_match(h, other) {
                    Some(m) => {
                        assert forall|j: int| 0 <= j < m implies !eq_ignore_ascii_case(
                            #[trigger] h2[j].0,
                            other,
                        ) by {
                            assert(h2[j] == h[j]);
                        }
                        assert(h2[m] == h[m]);
                        lemma_first_match_unique(h2, other, m);
                    },
                    None => {
                        assert forall|j: int| 0 <= j < h2.len() implies !eq_ignore_ascii_case(
                            #[trigger] h2[j].0,
                            other,
                        ) by {
                            if j < h.len() {
                                assert(h2[j] == h[j]);
                            }
                        }
                        if first_match(h2, other) is Some {
                            let m = first_match(h2, other).unwrap();
                            assert(!eq_ignore_ascii_case(h2[m].0, other));
                        }
                    },
                }
            },
        }
    }
}

/// RTSP headers.
#[derive(Debug, Clone)]
pub struct Headers {
    entries: Vec<(String, String)>,
}

impl View for Headers {
    type V = HeaderSeq;

    closed spec fn view(&self) -> HeaderSeq {
        self.entries@.map_values(|e: (String, String)| (e.0@, e.1@))
    }
}

impl Headers {
    /// Create an empty header list.
    pub fn new() -> (r: Self)
        ensures
            r@ == Seq::<(Seq<char>, Seq<char>)>::empty(),
    {
        let r = Headers { entries: Vec::new() };
        assert(r@ =~= Seq::<(Seq<char>, Seq<char>)>::empty());
        r
    }

    fn find(&self, name: &str) -> (r: Option<usize>)
        ensures
            r matches Some(i) ==> first_match(self@, name@) == Some(i as int) && i < self@.len(),
            r is None ==> first_match(self@, name@) is None,
    {
        let mut i: usize = 0;
        while i < self.entries.len()
            invariant
                i <= self.entries@.len(),
                self@.len() == self.entries@.len(),
                forall|j: int| 0 <= j < i ==> !eq_ignore_ascii_case(#[trigger] self@[j].0, name@),
            decreases self.entries@.len() - i,
        {
            let e = &self.entries[i];
            if str_eq_ignore_ascii_case(e.0.as_str(), name) {
                proof {
                    lemma_first_match_unique(self@, name@, i as int);
                }
                return Some(i);
            }
            i = i + 1;
        }
        proof {
            lemma_first_match(self@, name@);
            if first_match(self@, name@) is Some {
                let k = first_match(self@, name@).unwrap();
                assert(!eq_ignore_ascii_case(self@[k].0, name@));
            }
        }
        None
    }

    /// Insert a header; an existing header of the same name (ignoring ASCII
    /// case) takes the new value.
    pub fn insert(&mut self, name: &str, value: &str)
        ensures
            final(self)@ == spec_insert(old(self)@, name@, value@),
    {
        match self.find(name) {
            Some(i) => {
                let n = self.entries[i].0.clone();
                self.entries.set(i, (n, String::from_str(value)));
                assert(self@ =~= spec_insert(old(self)@, name@, value@));
            },
            None => {
                self.entries.push((String::from_str(name), String::from_str(value)));
                assert(self@ =~= spec_insert(old(self)@, name@, value@));
            },
        }
    }

    /// Get a header value, matching the name without ASCII case.
    pub fn get(&self, name: &str) -> (r: Option<&str>)
        ensures
            r matches Some(v) ==> spec_get(self@, name@) == Some(v@),
            r is None ==> spec_get(self@, name@) is None,
    {
        match self.find(name) {
            Some(i) => Some(self.entries[i].1.as_str()),
            None => None,
        }
    }

    /// Whether a header is present.
    pub fn contains(&self, name: &str) -> (r: bool)
        ensures
            r == (first_match(self@, name@) is Some),
    {
        self.find(name).is_some()
    }

    /// Number of headers.
    pub fn len(&self) -> (r: usize)
        ensures
            r == self@.len(),
    {
        self.entries.len()
    }

    /// Whether there are no headers.
    pub fn is_empty(&self) -> (r: bool)
        ensures
            r == (self@.len() == 0),
    {
        self.entries.len() == 0
    }

    /// The headers in order, as (name, value) pairs.
    pub fn iter(&self) -> (r: &[(String, String)])
        ensures
            r@.map_values(|e: (String, String)| (e.0@, e.1@)) == self@,
    {
        self.entries.as_slice()
    }

    /// The `CSeq` header as a number.
    pub fn cseq(&self) -> (r: Option<u32>)
        ensures
            r matches Some(n) ==> spec_number(self@, names::CSEQ@, u32::MAX as nat) == Some(
                n as nat,
            ),
            r is None ==> spec_number(self@, names::CSEQ@, u32::MAX as nat) is None,
    {
        match self.get(names::CSEQ) {
            Some(v) => match parse_u64(v) {
                Some(n) => if n <= u32::MAX as u64 {
                    Some(n as u32)
                } else {
                    None
                },
                None => None,
            },
            None => None,
        }
    }

    /// The `Content-Length` header as a number.
    pub fn content_length(&self) -> (r: Option<usize>)
        ensures
            r matches Some(n) ==> spec_number(self@, names::CONTENT_LENGTH@, usize::MAX as nat)
                == Some(n as nat),
            r is None ==> spec_number(self@, names::CONTENT_LENGTH@, usize::MAX as nat) is None,
    {
        match self.get(names::CONTENT_LENGTH) {
            Some(v) => match parse_u64(v) {
                Some(n) => if n <= usize::MAX as u64 {
                    Some(n as usize)
                } else {
                    None
                },
                None => None,
            },
            None => None,
        }
    }
}

} // verus!
