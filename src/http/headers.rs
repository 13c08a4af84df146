//! An ordered multimap of headers whose names compare without regard to ASCII case.
use vstd::prelude::*;
use vstd::string::StrSliceExecFns;

verus! {

/// A single header: a name and a value.
#[derive(Debug, Clone)]
pub struct Header {
    /// The header's name, as first written.
    pub name: String,
    /// The header's value.
    pub value: String,
}

impl Header {
    /// A copy of the header.
    pub fn duplicate(&self) -> (r: Header)
        ensures
            header_view(r) == header_view(*self),
    {
        Header { name: self.name.clone(), value: self.value.clone() }
    }
}

/// The headers of a request or response, in insertion order.
#[derive(Debug, Clone)]
pub struct Headers {
    entries: Vec<Header>,
}

/// A character with ASCII upper case folded to lower case, as a code point.
pub open spec fn fold_case(c: char) -> u32 {
    if 'A' <= c <= 'Z' {
        (c as u32 + 32) as u32
    } else {
        c as u32
    }
}

/// Whether two header names are equal without regard to ASCII case.
pub open spec fn same_name(a: Seq<char>, b: Seq<char>) -> bool {
    &&& a.len() == b.len()
    &&& forall|i: int| 0 <= i < a.len() ==> fold_case(#[trigger] a[i]) == fold_case(b[i])
}

/// The first position at or after `from` of a header named `name`, if any.
pub open spec fn find_header(hs: Seq<(Seq<char>, Seq<char>)>, name: Seq<char>, from: int) -> Option<int>
    decreases hs.len() - from,
{
    if from < 0 || from >= hs.len() {
        None
    } else if same_name(hs[from].0, name) {
        Some(from)
    } else {
        find_header(hs, name, from + 1)
    }
}

/// What `find_header` returns: the first matching position, if any.
pub proof fn lemma_find_header(hs: Seq<(Seq<char>, Seq<char>)>, name: Seq<char>, from: int)
    requires
        0 <= from,
    ensures
        find_header(hs, name, from) is Some ==> {
            let i = find_header(hs, name, from)->Some_0;
            from <= i < hs.len() && same_name(hs[i].0, name)
        },
        forall|k: int| from <= k < hs.len() && (find_header(hs, name, from) is None || k < find_header(hs, name, from)->Some_0)
            ==> !same_name(#[trigger] hs[k].0, name),
    decreases hs.len() - from,
{
    if from < hs.len() && !same_name(hs[from].0, name) {
        lemma_find_header(hs, name, from + 1);
    }
}

/// The first value of the header named `name`, if any.
pub open spec fn first_value(hs: Seq<(Seq<char>, Seq<char>)>, name: Seq<char>) -> Option<Seq<char>> {
    match find_header(hs, name, 0) {
        None => None,
        Some(i) => Some(hs[i].1),
    }
}

/// The values of all headers named `name`, in order.
pub open spec fn all_values(hs: Seq<(Seq<char>, Seq<char>)>, name: Seq<char>) -> Seq<Seq<char>>
    decreases hs.len(),
{
    if hs.len() == 0 {
        Seq::empty()
    } else if same_name(hs.last().0, name) {
        all_values(hs.drop_last(), name).push(hs.last().1)
    } else {
        all_values(hs.drop_last(), name)
    }
}

/// The headers not named `name`, in order.
pub open spec fn without(hs: Seq<(Seq<char>, Seq<char>)>, name: Seq<char>) -> Seq<(Seq<char>, Seq<char>)>
    decreases hs.len(),
{
    if hs.len() == 0 {
        Seq::empty()
    } else if same_name(hs.last().0, name) {
        without(hs.drop_last(), name)
    } else {
        without(hs.drop_last(), name).push(hs.last())
    }
}

/// Compares two names without regard to ASCII case.
pub fn names_match(a: &str, b: &str) -> (r: bool)
    ensures
        r == same_name(a@, b@),
{
    let n = a.unicode_len();
    if n != b.unicode_len() {
        return false;
    }
    let mut i: usize = 0;
    while i < n
        invariant
            n == a@.len() == b@.len(),
            i <= n,
            forall|k: int| 0 <= k < i ==> fold_case(#[trigger] a@[k]) == fold_case(b@[k]),
        decreases n - i,
    {
        let ca = a.get_char(i);
        let cb = b.get_char(i);
        let fa: u32 = if 'A' <= ca && ca <= 'Z' { ca as u32 + 32 } else { ca as u32 };
        let fb: u32 = if 'A' <= cb && cb <= 'Z' { cb as u32 + 32 } else { cb as u32 };
        if fa != fb {
            return false;
        }
        i = i + 1;
    }
    true
}

/// One header as a pair of character sequences.
pub open spec fn header_view(h: Header) -> (Seq<char>, Seq<char>) {
    (h.name@, h.value@)
}

impl View for Headers {
    type V = Seq<(Seq<char>, Seq<char>)>;

    closed spec fn view(&self) -> Seq<(Seq<char>, Seq<char>)> {
        self.entries@.map_values(|h: Header| header_view(h))
    }
}

impl Headers {
    /// An empty header map.
    pub fn new() -> (r: Headers)
        ensures
            r@ == Seq::<(Seq<char>, Seq<char>)>::empty(),
    {
        let r = Headers { entries: Vec::new() };
        assert(r@ =~= Seq::<(Seq<char>, Seq<char>)>::empty());
        r
    }

    /// Appends a header after all others.
    pub fn push(&mut self, name: String, value: String)
        ensures
            final(self)@ == old(self)@.push((name@, value@)),
    {
        let ghost before = self.entries@;
        self.entries.push(Header { name, value });
        assert(self.entries@.map_values(|h: Header| header_view(h)) =~= before.map_values(
            |h: Header| header_view(h),
        ).push((name@, value@)));
    }

    /// The number of headers.
    pub fn len(&self) -> (r: usize)
        ensures
            r == self@.len(),
    {
        self.entries.len()
    }

    /// The position of the first header named `name`, if any.
    pub fn position(&self, name: &str) -> (r: Option<usize>)
        ensures
            match find_header(self@, name@, 0) {
                None => r is None,
                Some(i) => r is Some && r->Some_0 as int == i,
            },
    {
        let mut i: usize = 0;
        while i < self.entries.len()
            invariant
                i <= self@.len(),
                self@.len() == self.entries@.len(),
                forall|k: int| 0 <= k < self@.len() ==> #[trigger] self@[k] == header_view(self.entries@[k]),
                find_header(self@, name@, 0) == find_header(self@, name@, i as int),
            decreases self@.len() - i,
        {
            if names_match(self.entries[i].name.as_str(), name) {
                return Some(i);
            }
            i = i + 1;
        }
        None
    }

    /// The first value of the header named `name`, if any.
    pub fn get(&self, name: &str) -> (r: Option<&str>)
        ensures
            match first_value(self@, name@) {
                None => r is None,
                Some(v) => r is Some && r->Some_0@ == v,
            },
    {
        proof {
            lemma_find_header(self@, name@, 0);
        }
        match self.position(name) {
            None => None,
            Some(i) => {
                assert(self@[i as int] == header_view(self.entries@[i as int]));
                let v = self.entries[i].value.as_str();
                Some(v)
            },
        }
    }

    /// The values of all headers named `name`, in order.
    pub fn get_all(&self, name: &str) -> (r: Vec<&str>)
        ensures
            r@.map_values(|v: &str| v@) == all_values(self@, name@),
    {
        let mut out: Vec<&str> = Vec::new();
        let mut i: usize = 0;
        while i < self.entries.len()
            invariant
                i <= self@.len(),
                self@.len() == self.entries@.len(),
                forall|k: int| 0 <= k < self@.len() ==> #[trigger] self@[k] == header_view(self.entries@[k]),
                out@.map_values(|v: &str| v@) == all_values(self@.subrange(0, i as int), name@),
            decreases self@.len() - i,
        {
            let ghost before = out@;
            if names_match(self.entries[i].name.as_str(), name) {
                out.push(self.entries[i].value.as_str());
                assert(out@.map_values(|v: &str| v@) =~= before.map_values(|v: &str| v@).push(
                    self@[i as int].1,
                ));
            }
            assert(self@.subrange(0, i + 1).drop_last() =~= self@.subrange(0, i as int));
            i = i + 1;
        }
        assert(self@.subrange(0, i as int) =~= self@);
        out
    }

    /// Removes every header named `name`.
    pub fn remove(&mut self, name: &str)
        ensures
            final(self)@ == without(old(self)@, name@),
    {
        let ghost hs = self@;
        let mut kept: Vec<Header> = Vec::new();
        let mut i: usize = 0;
        while i < self.entries.len()
            invariant
                i <= hs.len(),
                hs.len() == self.entries@.len(),
                forall|k: int| 0 <= k < hs.len() ==> #[trigger] hs[k] == header_view(self.entries@[k]),
                kept@.map_values(|h: Header| header_view(h)) == without(hs.subrange(0, i as int), name@),
            decreases hs.len() - i,
        {
            let ghost before = kept@;
            if !names_match(self.entries[i].name.as_str(), name) {
                kept.push(self.entries[i].duplicate());
                assert(kept@.map_values(|h: Header| header_view(h)) =~= before.map_values(
                    |h: Header| header_view(h),
                ).push(hs[i as int]));
            }
            assert(hs.subrange(0, i + 1).drop_last() =~= hs.subrange(0, i as int));
            i = i + 1;
        }
        assert(hs.subrange(0, i as int) =~= hs);
        self.entries = kept;
    }

    /// Replaces every header named `name` by one header `name: value`, placed last.
    pub fn set(&mut self, name: &str, value: &str)
        ensures
            final(self)@ == without(old(self)@, name@).push((name@, value@)),
    {
        self.remove(name);
        self.push(name.to_string(), value.to_string());
    }

    /// Adds `name: value` after all other headers.
    pub fn add(&mut self, name: &str, value: &str)
        ensures
            final(self)@ == old(self)@.push((name@, value@)),
    {
        self.push(name.to_string(), value.to_string());
    }

    /// Adds `name: value` unless a header of that name is present; then
    /// leaves the headers as they are and returns the first present value.
    pub fn try_set(&mut self, name: &str, value: &str) -> (r: Option<String>)
        ensures
            match first_value(old(self)@, name@) {
                None => r is None && final(self)@ == old(self)@.push((name@, value@)),
                Some(v) => r is Some && r->Some_0@ == v && final(self)@ == old(self)@,
            },
    {
        match self.get(name) {
            Some(v) => Some(v.to_string()),
            None => {
                self.add(name, value);
                None
            },
        }
    }

    /// The header at position `i`.
    pub fn at(&self, i: usize) -> (r: &Header)
        requires
            i < self@.len(),
        ensures
            header_view(*r) == self@[i as int],
    {
        &self.entries[i]
    }
}

} // verus!
