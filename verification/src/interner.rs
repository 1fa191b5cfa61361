//! The string interner: a bidirectional mapping between schema names and
//! compact integer ids. Ids are handed out in order of first appearance and
//! never change or get reused, so an id stored beside a value stays valid
//! for as long as the interned table is kept.

use vstd::prelude::*;

verus! {

/// Whether no text occurs twice in `names`.
pub open spec fn all_distinct(names: Seq<Seq<char>>) -> bool {
    forall|i: int, j: int| 0 <= i < j < names.len() ==> names[i] != names[j]
}

/// What a table holds after `name` has been looked up in it: the table
/// itself where it knows the name or has no id left, else the table with
/// the name appended.
pub open spec fn after_lookup(names: Seq<Seq<char>>, name: Seq<char>) -> Seq<Seq<char>> {
    if names.contains(name) || names.len() >= u32::MAX {
        names
    } else {
        names.push(name)
    }
}

/// The id that a lookup of `name` gives on a table, if it gives one.
pub open spec fn id_of(names: Seq<Seq<char>>, name: Seq<char>) -> Option<u32> {
    if names.contains(name) {
        Some(names.index_of(name) as u32)
    } else if names.len() < u32::MAX {
        Some(names.len() as u32)
    } else {
        None
    }
}

/// The interned names; the id of a name is its position.
pub struct StringInterner {
    names: Vec<String>,
}

impl View for StringInterner {
    type V = Seq<Seq<char>>;

    closed spec fn view(&self) -> Seq<Seq<char>> {
        Seq::new(self.names@.len(), |i: int| self.names@[i]@)
    }
}

impl StringInterner {
    /// No name is interned twice, and every position fits an id.
    pub open spec fn wf(&self) -> bool {
        &&& self@.len() <= u32::MAX
        &&& all_distinct(self@)
    }

    /// An interner that knows no name.
    pub fn new() -> (r: Self)
        ensures
            r@ == Seq::<Seq<char>>::empty(),
            r.wf(),
    {
        let r = StringInterner { names: Vec::new() };
        assert(r@ =~= Seq::<Seq<char>>::empty());
        r
    }

    /// The number of interned names.
    pub fn len(&self) -> (n: usize)
        ensures
            n == self@.len(),
    {
        self.names.len()
    }

    /// The id of `name`, if it has been interned. Changes nothing.
    pub fn find(&self, name: &str) -> (r: Option<u32>)
        requires
            self.wf(),
        ensures
            match r {
                Some(id) => (id as int) < self@.len() && self@[id as int] == name@,
                None => !self@.contains(name@),
            },
    {
        let wanted = name.to_owned();
        let mut i: usize = 0;
        while i < self.names.len()
            invariant
                i <= self.names@.len(),
                self.names@.len() <= u32::MAX,
                wanted@ == name@,
                forall|k: int| 0 <= k < i ==> self@[k] != name@,
            decreases self.names@.len() - i,
        {
            if self.names[i] == wanted {
                return Some(i as u32);
            }
            i = i + 1;
        }
        None
    }

    /// Whether `id` has been handed out.
    pub fn contains_id(&self, id: u32) -> (r: bool)
        ensures
            r == ((id as int) < self@.len()),
    {
        (id as usize) < self.names.len()
    }

    /// The id of `name`, interning it first if it is new. Ids already
    /// handed out keep their names. `None` only when the name is new and
    /// all ids are taken; the table is then unchanged.
    pub fn lookup_name(&mut self, name: &str) -> (r: Option<u32>)
        requires
            old(self).wf(),
        ensures
            final(self).wf(),
            final(self)@ == after_lookup(old(self)@, name@),
            r == id_of(old(self)@, name@),
            r matches Some(id) ==> (id as int) < final(self)@.len() && final(self)@[id as int]
                == name@,
    {
        let found = self.find(name);
        match found {
            Some(id) => {
                assert(self@.contains(name@));
                Some(id)
            },
            None => {
                let n = self.names.len();
                if n >= u32::MAX as usize {
                    None
                } else {
                    let ghost before = self@;
                    self.names.push(name.to_owned());
                    assert(self@ =~= before.push(name@));
                    Some(n as u32)
                }
            },
        }
    }

    /// The name behind an id that has been handed out.
    pub fn lookup_id(&self, id: u32) -> (r: &str)
        requires
            (id as int) < self@.len(),
        ensures
            r@ == self@[id as int],
    {
        self.names[id as usize].as_str()
    }

    /// A copy of the interner as it is now, to hand out for reading.
    pub fn snapshot(&self) -> (r: Self)
        requires
            self.wf(),
        ensures
            r.wf(),
            r@ == self@,
    {
        let mut names: Vec<String> = Vec::new();
        let mut i: usize = 0;
        while i < self.names.len()
            invariant
                i <= self.names@.len(),
                names@.len() == i,
                forall|k: int| 0 <= k < i ==> (#[trigger] names@[k])@ == self.names@[k]@,
            decreases self.names@.len() - i,
        {
            names.push(self.names[i].clone());
            i = i + 1;
        }
        let r = StringInterner { names };
        assert(r@ =~= self@);
        r
    }

    /// Rebuilds an interner from the names of a kept table, in id order.
    /// `None` where a name occurs twice or there are more names than ids.
    pub fn from_names(names: Vec<String>) -> (r: Option<Self>)
        ensures
            match r {
                Some(interner) => interner.wf() && interner@ == Seq::new(
                    names@.len(),
                    |i: int| names@[i]@,
                ),
                None => names@.len() > u32::MAX || !all_distinct(
                    Seq::new(names@.len(), |i: int| names@[i]@),
                ),
            },
    {
        let ghost texts = Seq::new(names@.len(), |i: int| names@[i]@);
        if names.len() > u32::MAX as usize {
            return None;
        }
        let mut i: usize = 0;
        while i < names.len()
            invariant
                i <= names@.len(),
                texts == Seq::new(names@.len(), |k: int| names@[k]@),
                forall|a: int, b: int| 0 <= a < b < i ==> texts[a] != texts[b],
            decreases names@.len() - i,
        {
            let mut j: usize = 0;
            while j < i
                invariant
                    j <= i < names@.len(),
                    texts == Seq::new(names@.len(), |k: int| names@[k]@),
                    forall|a: int| 0 <= a < j ==> texts[a] != texts[i as int],
                decreases i - j,
            {
                if names[j] == names[i] {
                    assert(texts[j as int] == texts[i as int]);
                    return None;
                }
                j = j + 1;
            }
            i = i + 1;
        }
        let r = StringInterner { names };
        assert(r@ =~= texts);
        Some(r)
    }
}

/// A name keeps its id: once a lookup has given an id for a name, every
/// later lookup of that name gives the same id, whatever other names were
/// interned in between.
pub proof fn lemma_id_is_stable(names: Seq<Seq<char>>, name: Seq<char>, later: Seq<Seq<char>>)
    requires
        names.len() <= u32::MAX,
        all_distinct(names),
        id_of(names, name) is Some,
        later.len() <= u32::MAX,
        all_distinct(later),
        after_lookup(names, name).is_prefix_of(later),
    ensures
        id_of(later, name) == id_of(names, name),
{
    let id = id_of(names, name)->0 as int;
    let grown = after_lookup(names, name);
    if names.contains(name) {
        let k = names.index_of(name);
        assert(grown[k] == name);
    } else {
        assert(grown[names.len() as int] == name);
    }
    assert(grown[id] == name);
    assert(later[id] == name);
    assert(later.contains(name));
    let k2 = later.index_of(name);
    assert(later[k2] == name);
    assert(k2 == id);
}

/// Looking a name up never renames an id: the table before is a prefix of
/// the table after.
pub proof fn lemma_lookup_appends_only(names: Seq<Seq<char>>, name: Seq<char>)
    ensures
        names.is_prefix_of(after_lookup(names, name)),
        all_distinct(names) ==> all_distinct(after_lookup(names, name)),
{
    let grown = after_lookup(names, name);
    if all_distinct(names) && grown != names {
        assert forall|i: int, j: int| 0 <= i < j < grown.len() implies grown[i] != grown[j] by {
            if j == names.len() {
                assert(names[i] == grown[i]);
                assert(names.contains(grown[i]));
            }
        }
    }
}

} // verus!
