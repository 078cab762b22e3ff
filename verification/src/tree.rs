use vstd::prelude::*;

verus! {

/// Mathematical model of one decoded value: a nested mapping from key
/// characters to values, a text value, or a 32-bit unsigned integer.
pub enum ValueView {
    Object(Map<Seq<char>, ValueView>),
    Text(Seq<char>),
    Int(u32),
}

/// One decoded value: a nested object, a text value, or a 32-bit unsigned
/// integer. This closed union is the only shape a decoded tree can take.
#[derive(Debug, PartialEq)]
pub enum Value {
    Object(LooseMap),
    Text(String),
    Int(u32),
}

/// A decoded tree node: a mapping from string keys to tagged values.
///
/// Entries are kept in insertion order; a later entry for a key already
/// present shadows the earlier one, so the abstract content is a map in
/// which the last write wins.
#[derive(Debug, PartialEq)]
pub struct LooseMap {
    entries: Vec<(String, Value)>,
}

impl View for Value {
    type V = ValueView;

    open spec fn view(&self) -> ValueView
        decreases self,
    {
        match self {
            Value::Object(m) => ValueView::Object(m@),
            Value::Text(s) => ValueView::Text(s@),
            Value::Int(n) => ValueView::Int(*n),
        }
    }
}

impl View for LooseMap {
    type V = Map<Seq<char>, ValueView>;

    closed spec fn view(&self) -> Map<Seq<char>, ValueView>
        decreases self,
    {
        entries_view(self.entries@)
    }
}

/// The map described by a sequence of key-value entries, later entries
/// overwriting earlier ones.
pub closed spec fn entries_view(s: Seq<(String, Value)>) -> Map<Seq<char>, ValueView>
    decreases s,
{
    if s.len() == 0 {
        Map::empty()
    } else {
        entries_view(s.drop_last()).insert(s.last().0@, s.last().1@)
    }
}

impl LooseMap {
    pub fn new() -> (m: Self)
        ensures
            m@ == Map::<Seq<char>, ValueView>::empty(),
    {
        LooseMap { entries: Vec::new() }
    }

    /// Add one entry; an entry with the same key already present is
    /// shadowed, so the abstract content is a map insertion.
    pub fn insert(&mut self, k: String, v: Value)
        ensures
            final(self)@ == old(self)@.insert(k@, v@),
    {
        let ghost s0 = self.entries@;
        self.entries.push((k, v));
        proof {
            assert(self.entries@.drop_last() =~= s0);
        }
    }

    /// Look the key up; the entry written last for that key decides.
    pub fn get(&self, k: &String) -> (r: Option<&Value>)
        ensures
            self@.contains_key(k@) ==> r is Some && r->Some_0@ == self@[k@],
            !self@.contains_key(k@) ==> r is None,
    {
        let mut i: usize = self.entries.len();
        while i > 0
            invariant
                i <= self.entries.len(),
                forall|j: int| i <= j < self.entries@.len() ==> self.entries@[j].0@ != k@,
            decreases i,
        {
            i = i - 1;
            if self.entries[i].0 == *k {
                proof {
                    lemma_view_last_match(self.entries@, k@, i as int);
                }
                return Some(&self.entries[i].1);
            }
        }
        proof {
            lemma_view_no_match(self.entries@, k@);
        }
        None
    }

    /// Remove and return the value the map holds for the key, consuming
    /// the map; the entry written last for that key decides.
    #[verifier::loop_isolation(false)]
    pub fn into_entry(self, k: &String) -> (r: Option<Value>)
        ensures
            self@.contains_key(k@) ==> r is Some && r->Some_0@ == self@[k@],
            !self@.contains_key(k@) ==> r is None,
    {
        let LooseMap { mut entries } = self;
        let ghost s0 = entries@;
        let mut i: usize = entries.len();
        while i > 0
            invariant
                i <= entries.len(),
                entries@ == s0,
                forall|j: int| i <= j < s0.len() ==> s0[j].0@ != k@,
            decreases i,
        {
            i = i - 1;
            if entries[i].0 == *k {
                proof {
                    lemma_view_last_match(s0, k@, i as int);
                }
                let e = entries.remove(i);
                return Some(e.1);
            }
        }
        proof {
            lemma_view_no_match(s0, k@);
        }
        None
    }
}

/// If position `i` holds the last entry for key `k`, the map described by
/// the entries holds that entry's value for `k`.
proof fn lemma_view_last_match(s: Seq<(String, Value)>, k: Seq<char>, i: int)
    requires
        0 <= i < s.len(),
        s[i].0@ == k,
        forall|j: int| i < j < s.len() ==> s[j].0@ != k,
    ensures
        entries_view(s).contains_key(k),
        entries_view(s)[k] == s[i].1@,
    decreases s.len(),
{
    assert(entries_view(s) == entries_view(s.drop_last()).insert(s.last().0@, s.last().1@));
    if i == s.len() - 1 {
        assert(s.last() == s[i]);
    } else {
        assert(s.last().0@ != k);
        lemma_view_last_match(s.drop_last(), k, i);
        assert(s.drop_last()[i] == s[i]);
    }
}

/// A key no entry carries is not in the described map.
proof fn lemma_view_no_match(s: Seq<(String, Value)>, k: Seq<char>)
    requires
        forall|j: int| 0 <= j < s.len() ==> s[j].0@ != k,
    ensures
        !entries_view(s).contains_key(k),
    decreases s.len(),
{
    if s.len() > 0 {
        assert(entries_view(s) == entries_view(s.drop_last()).insert(s.last().0@, s.last().1@));
        assert(s.last().0@ != k);
        lemma_view_no_match(s.drop_last(), k);
    }
}

} // verus!
