//! Interning: identifier text is mapped to dense handles, in the order in
//! which each text was first seen.

use indexmap::IndexSet;
use std::borrow::Cow;
use vstd::prelude::*;

verus! {

/// A handle into one interner: the position at which a text was first
/// interned. It means nothing to any other interner.
pub type StringId = usize;

#[verifier::external_type_specification]
#[verifier::external_body]
#[verifier::reject_recursive_types(T)]
#[verifier::reject_recursive_types(S)]
pub struct ExIndexSet<T, S>(IndexSet<T, S>);

/// The texts that an `IndexSet<String>` holds, in insertion order.
pub uninterp spec fn index_set_items(set: IndexSet<String>) -> Seq<Seq<char>>;

/// `IndexSet::new`: the new set holds nothing.
#[verifier::external_body]
fn set_new() -> (set: IndexSet<String>)
    ensures
        index_set_items(set) == Seq::<Seq<char>>::empty(),
{
    IndexSet::new()
}

/// `IndexSet::len`: the number of items held.
#[verifier::external_body]
fn set_len(set: &IndexSet<String>) -> (n: usize)
    ensures
        n == index_set_items(*set).len(),
{
    set.len()
}

/// `IndexSet::get_index_of`: a position at which the set holds `s`, or `None`
/// when it holds `s` nowhere.
#[verifier::external_body]
fn set_get_index_of(set: &IndexSet<String>, s: &str) -> (found: Option<usize>)
    ensures
        match found {
            Some(i) => i < index_set_items(*set).len() && index_set_items(*set)[i as int] == s@,
            None => !index_set_items(*set).contains(s@),
        },
{
    set.get_index_of(s)
}

/// `IndexSet::insert`: a text that the set does not hold yet is appended
/// behind the others and `true` is returned; one that it holds leaves the set
/// as it was and `false` is returned.
#[verifier::external_body]
fn set_insert(set: &mut IndexSet<String>, s: String) -> (fresh: bool)
    ensures
        fresh == !index_set_items(*old(set)).contains(s@),
        index_set_items(*final(set)) == if fresh {
            index_set_items(*old(set)).push(s@)
        } else {
            index_set_items(*old(set))
        },
{
    set.insert(s)
}

/// `IndexSet::get_index`: the item at position `i`, or `None` when `i` is
/// not below the length.
#[verifier::external_body]
fn set_get_index(set: &IndexSet<String>, i: usize) -> (item: Option<&String>)
    ensures
        match item {
            Some(s) => i < index_set_items(*set).len() && s@ == index_set_items(*set)[i as int],
            None => i >= index_set_items(*set).len(),
        },
{
    set.get_index(i)
}

/// The handle that interning `s` into `strings` yields: the position of `s`
/// where it is present, else the next free position.
pub open spec fn intern_id(strings: Seq<Seq<char>>, s: Seq<char>) -> int {
    if strings.contains(s) {
        strings.index_of(s)
    } else {
        strings.len() as int
    }
}

/// The table after interning `s` into `strings`: unchanged where `s` is
/// present, else with `s` appended.
pub open spec fn intern_strings(strings: Seq<Seq<char>>, s: Seq<char>) -> Seq<Seq<char>> {
    if strings.contains(s) {
        strings
    } else {
        strings.push(s)
    }
}

/// The text that a handle stands for, if the handle was ever given out.
pub open spec fn lookup(strings: Seq<Seq<char>>, id: int) -> Option<Seq<char>> {
    if 0 <= id < strings.len() {
        Some(strings[id])
    } else {
        None
    }
}

/// An append-only, insertion-ordered table of distinct texts.
#[derive(Debug)]
pub struct StringIntern {
    map: IndexSet<String>,
}

impl View for StringIntern {
    type V = Seq<Seq<char>>;

    closed spec fn view(&self) -> Seq<Seq<char>> {
        index_set_items(self.map)
    }
}

impl StringIntern {
    /// No text occurs twice.
    pub open spec fn wf(&self) -> bool {
        self@.no_duplicates()
    }

    /// An interner that holds nothing.
    pub fn new() -> (res: Self)
        ensures
            res.wf(),
            res@ == Seq::<Seq<char>>::empty(),
    {
        StringIntern { map: set_new() }
    }

    /// The number of texts interned so far.
    pub fn len(&self) -> (n: usize)
        ensures
            n == self@.len(),
    {
        set_len(&self.map)
    }

    /// The handle of `s`, which is interned first if it is new.
    pub fn get_id(&mut self, s: &str) -> (id: StringId)
        requires
            old(self).wf(),
        ensures
            final(self).wf(),
            id == intern_id(old(self)@, s@),
            final(self)@ == intern_strings(old(self)@, s@),
    {
        match set_get_index_of(&self.map, s) {
            Some(i) => {
                proof {
                    lemma_index_of_unique(self@, s@, i as int);
                }
                i
            },
            None => {
                let place = set_len(&self.map);
                let owned = s.to_owned();
                set_insert(&mut self.map, owned);
                proof {
                    lemma_push_no_duplicates(old(self)@, s@);
                }
                place
            },
        }
    }

    /// The text behind `id`; `None` for a handle this interner never gave out.
    pub fn get_str(&self, id: StringId) -> (res: Option<Cow<'_, String>>)
        ensures
            res is Some <==> id < self@.len(),
            res matches Some(text) ==> text@ == self@[id as int],
    {
        match set_get_index(&self.map, id) {
            Some(s) => Some(Cow::Borrowed(s)),
            None => None,
        }
    }
}

/// An owned copy of the text behind a handle of the table.
pub fn text_of(intern: &StringIntern, id: StringId) -> (text: String)
    requires
        id < intern@.len(),
    ensures
        text@ == intern@[id as int],
{
    match intern.get_str(id) {
        Some(Cow::Borrowed(s)) => s.clone(),
        Some(Cow::Owned(s)) => s,
        None => String::new(),
    }
}

impl Default for StringIntern {
    fn default() -> (res: Self)
        ensures
            res.wf(),
            res@ == Seq::<Seq<char>>::empty(),
    {
        StringIntern::new()
    }
}

/// In a table without duplicates, a position that holds `s` is the position
/// of `s`.
pub proof fn lemma_index_of_unique(strings: Seq<Seq<char>>, s: Seq<char>, i: int)
    requires
        strings.no_duplicates(),
        0 <= i < strings.len(),
        strings[i] == s,
    ensures
        strings.contains(s),
        strings.index_of(s) == i,
{
    assert(strings.contains(s));
    let j = strings.index_of(s);
    assert(0 <= j < strings.len() && strings[j] == s);
}

/// Appending a text that is absent keeps the table free of duplicates.
pub proof fn lemma_push_no_duplicates(strings: Seq<Seq<char>>, s: Seq<char>)
    requires
        strings.no_duplicates(),
        !strings.contains(s),
    ensures
        strings.push(s).no_duplicates(),
{
    let t = strings.push(s);
    assert forall|i: int, j: int| 0 <= i < t.len() && 0 <= j < t.len() && i != j implies t[i]
        != t[j] by {
        if i < strings.len() {
            assert(strings.contains(t[i]));
        }
        if j < strings.len() {
            assert(strings.contains(t[j]));
        }
    }
}

/// Interning yields a handle inside the new table, keeps the table free of
/// duplicates, and leaves every earlier handle with its text.
pub proof fn lemma_intern_extends(strings: Seq<Seq<char>>, s: Seq<char>)
    requires
        strings.no_duplicates(),
    ensures
        intern_strings(strings, s).no_duplicates(),
        0 <= intern_id(strings, s) < intern_strings(strings, s).len(),
        strings.len() <= intern_strings(strings, s).len() <= strings.len() + 1,
        forall|i: int| 0 <= i < strings.len() ==> intern_strings(strings, s)[i] == strings[i],
{
    if strings.contains(s) {
        let j = strings.index_of(s);
        assert(0 <= j < strings.len() && strings[j] == s);
    } else {
        lemma_push_no_duplicates(strings, s);
    }
}

/// Looking up the handle that interning gave returns the interned text.
pub proof fn lemma_lookup_interned(strings: Seq<Seq<char>>, s: Seq<char>)
    requires
        strings.no_duplicates(),
    ensures
        lookup(intern_strings(strings, s), intern_id(strings, s)) == Some(s),
{
    lemma_intern_extends(strings, s);
    if strings.contains(s) {
        let j = strings.index_of(s);
        assert(0 <= j < strings.len() && strings[j] == s);
    }
}

/// Interning the same text a second time yields the same handle and leaves
/// the table as the first call left it.
pub proof fn lemma_intern_twice(strings: Seq<Seq<char>>, s: Seq<char>)
    requires
        strings.no_duplicates(),
    ensures
        intern_id(intern_strings(strings, s), s) == intern_id(strings, s),
        intern_strings(intern_strings(strings, s), s) == intern_strings(strings, s),
{
    lemma_intern_extends(strings, s);
    lemma_lookup_interned(strings, s);
    let t = intern_strings(strings, s);
    let i = intern_id(strings, s);
    assert(t[i] == s);
    lemma_index_of_unique(t, s, i);
}

/// A handle, once given out, stays with its text whatever is interned later.
pub proof fn lemma_intern_stable(strings: Seq<Seq<char>>, a: Seq<char>, b: Seq<char>)
    requires
        strings.no_duplicates(),
        strings.contains(a),
    ensures
        intern_id(intern_strings(strings, b), a) == intern_id(strings, a),
{
    lemma_intern_extends(strings, b);
    let i = strings.index_of(a);
    assert(0 <= i < strings.len() && strings[i] == a);
    let t = intern_strings(strings, b);
    assert(t[i] == a);
    lemma_index_of_unique(t, a, i);
}

/// Two distinct texts, interned one after the other, get distinct handles.
pub proof fn lemma_intern_distinct(strings: Seq<Seq<char>>, a: Seq<char>, b: Seq<char>)
    requires
        strings.no_duplicates(),
        a != b,
    ensures
        intern_id(strings, a) != intern_id(intern_strings(strings, a), b),
{
    lemma_intern_extends(strings, a);
    lemma_lookup_interned(strings, a);
    let t = intern_strings(strings, a);
    lemma_intern_extends(t, b);
    lemma_lookup_interned(t, b);
    let i = intern_id(strings, a);
    let j = intern_id(t, b);
    assert(t[i] == a);
    assert(intern_strings(t, b)[j] == b);
    assert(intern_strings(t, b)[i] == t[i]);
}

/// Two distinct texts never share a handle, whatever is interned between
/// the two: `later` is any table that has grown out of the one in which `a`
/// was interned.
pub proof fn lemma_intern_injective(
    strings: Seq<Seq<char>>,
    a: Seq<char>,
    later: Seq<Seq<char>>,
    b: Seq<char>,
)
    requires
        strings.no_duplicates(),
        later.no_duplicates(),
        intern_strings(strings, a).is_prefix_of(later),
        a != b,
    ensures
        intern_id(strings, a) != intern_id(later, b),
{
    lemma_intern_extends(strings, a);
    lemma_lookup_interned(strings, a);
    let i = intern_id(strings, a);
    assert(intern_strings(strings, a)[i] == a);
    assert(later[i] == a);
    if later.contains(b) {
        let j = later.index_of(b);
        assert(0 <= j < later.len() && later[j] == b);
    }
}

} // verus!
