//! The textual field set that a test design is built from.
use vstd::prelude::*;

verus! {

/// What a field set holds: (name, text) pairs in the order they were inserted.
pub type FieldsView = Seq<(Seq<char>, Seq<char>)>;

/// The text of the field `name`: that of its latest entry.
pub open spec fn lookup(entries: FieldsView, name: Seq<char>) -> Option<Seq<char>>
    decreases entries.len(),
{
    if entries.len() == 0 {
        None
    } else if entries.last().0 == name {
        Some(entries.last().1)
    } else {
        lookup(entries.drop_last(), name)
    }
}

/// A set of named fields, each with a textual value.
#[derive(Debug)]
pub struct Fields {
    entries: Vec<(String, String)>,
}

impl View for Fields {
    type V = FieldsView;

    closed spec fn view(&self) -> FieldsView {
        self.entries@.map_values(|e: (String, String)| (e.0@, e.1@))
    }
}

/// Whether two strings hold the same characters.
pub fn same_text(a: &str, b: &str) -> (r: bool)
    ensures
        r == (a@ == b@),
{
    let n = a.unicode_len();
    if n != b.unicode_len() {
        return false;
    }
    let mut i: usize = 0;
    while i < n
        invariant
            n == a@.len() == b@.len(),
            i <= n,
            forall|j: int| 0 <= j < i ==> a@[j] == b@[j],
        decreases n - i,
    {
        if a.get_char(i) != b.get_char(i) {
            return false;
        }
        i = i + 1;
    }
    assert(a@ =~= b@);
    true
}

impl Fields {
    /// An empty field set.
    pub fn new() -> (r: Fields)
        ensures
            r@ == FieldsView::empty(),
    {
        let r = Fields { entries: Vec::new() };
        assert(r@ =~= FieldsView::empty());
        r
    }

    /// Sets the field `name` to `value`, replacing any earlier text of it.
    pub fn insert(&mut self, name: &str, value: &str)
        ensures
            final(self)@ == old(self)@.push((name@, value@)),
            lookup(final(self)@, name@) == Some(value@),
    {
        let ghost before = self@;
        self.entries.push((name.to_string(), value.to_string()));
        assert(self@ =~= before.push((name@, value@)));
        assert(self@.drop_last() =~= before);
    }

    /// The text of the field `name`, if there is one.
    pub fn get(&self, name: &str) -> (r: Option<String>)
        ensures
            r.is_some() == lookup(self@, name@).is_some(),
            r.is_some() ==> r.unwrap()@ == lookup(self@, name@).unwrap(),
    {
        let mut i: usize = self.entries.len();
        assert(self@.take(i as int) =~= self@);
        while i > 0
            invariant
                i <= self.entries.len(),
                lookup(self@, name@) == lookup(self@.take(i as int), name@),
            decreases i,
        {
            let ghost pre = self@.take(i as int);
            assert(pre.last() == (self.entries@[i - 1].0@, self.entries@[i - 1].1@));
            if same_text(self.entries[i - 1].0.as_str(), name) {
                return Some(self.entries[i - 1].1.clone());
            }
            assert(pre.drop_last() =~= self@.take(i - 1));
            i = i - 1;
        }
        None
    }
}

} // verus!
