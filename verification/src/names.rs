//! Names in lexicographic order, and the ordered map from names to values that
//! the signature tables are made of.

use smol_str::SmolStr;
use vstd::prelude::*;

use crate::outside;
use crate::outside::smol_new;
use crate::text::same_text;

verus! {

/// `a` comes before `b` in the lexicographic order of their characters.
pub open spec fn name_lt(a: Seq<char>, b: Seq<char>) -> bool
    decreases a.len(),
{
    if b.len() == 0 {
        false
    } else if a.len() == 0 {
        true
    } else if a[0] != b[0] {
        a[0] < b[0]
    } else {
        name_lt(a.drop_first(), b.drop_first())
    }
}

/// No name comes before itself.
pub proof fn lemma_name_lt_irreflexive(a: Seq<char>)
    ensures
        !name_lt(a, a),
    decreases a.len(),
{
    if a.len() > 0 {
        lemma_name_lt_irreflexive(a.drop_first());
    }
}

/// The order of names is transitive.
pub proof fn lemma_name_lt_transitive(a: Seq<char>, b: Seq<char>, c: Seq<char>)
    requires
        name_lt(a, b),
        name_lt(b, c),
    ensures
        name_lt(a, c),
    decreases a.len(),
{
    if a.len() > 0 && a[0] == b[0] && b[0] == c[0] {
        lemma_name_lt_transitive(a.drop_first(), b.drop_first(), c.drop_first());
    }
}

/// Of two different names one comes before the other.
pub proof fn lemma_name_lt_total(a: Seq<char>, b: Seq<char>)
    ensures
        a == b || name_lt(a, b) || name_lt(b, a),
    decreases a.len(),
{
    if a.len() > 0 && b.len() > 0 && a[0] == b[0] {
        lemma_name_lt_total(a.drop_first(), b.drop_first());
        if a.drop_first() == b.drop_first() {
            assert(a =~= seq![a[0]] + a.drop_first());
            assert(b =~= seq![b[0]] + b.drop_first());
        }
    } else if a.len() == 0 && b.len() == 0 {
        assert(a =~= b);
    }
}

/// Of two names no more than one comes before the other.
pub proof fn lemma_name_lt_asymmetric(a: Seq<char>, b: Seq<char>)
    requires
        name_lt(a, b),
    ensures
        !name_lt(b, a),
        a != b,
{
    if name_lt(b, a) {
        lemma_name_lt_transitive(a, b, a);
    }
    lemma_name_lt_irreflexive(a);
}

/// Each name comes before all that follow it; so no name occurs twice.
pub open spec fn strictly_sorted(names: Seq<Seq<char>>) -> bool {
    forall|i: int, j: int|
        0 <= i < j < names.len() ==> name_lt(#[trigger] names[i], #[trigger] names[j])
}

/// Where two names stand in the order.
#[derive(Debug, Clone, Copy, PartialEq, Eq, Structural)]
pub enum Placing {
    Before,
    Same,
    After,
}

/// Where `a` stands relative to `b`.
pub fn place_name(a: &str, b: &str) -> (r: Placing)
    ensures
        r == (if a@ == b@ {
            Placing::Same
        } else if name_lt(a@, b@) {
            Placing::Before
        } else {
            Placing::After
        }),
{
    let mut left = a.chars();
    let mut right = b.chars();
    let ghost mut k: int = 0;
    proof {
        assert(a@.skip(0) =~= a@);
        assert(b@.skip(0) =~= b@);
    }
    loop
        invariant
            0 <= k <= a@.len(),
            k <= b@.len(),
            vstd::std_specs::iter::IteratorSpec::remaining(&left) == a@.skip(k),
            vstd::std_specs::iter::IteratorSpec::remaining(&right) == b@.skip(k),
            a@.take(k) =~= b@.take(k),
            name_lt(a@, b@) == name_lt(a@.skip(k), b@.skip(k)),
        decreases a@.len() - k,
    {
        match (left.next(), right.next()) {
            (None, None) => {
                proof {
                    assert(a@.take(k) =~= a@);
                    assert(b@.take(k) =~= b@);
                }
                return Placing::Same;
            },
            (None, Some(_)) => {
                return Placing::Before;
            },
            (Some(_), None) => {
                return Placing::After;
            },
            (Some(c), Some(d)) => {
                if c != d {
                    proof {
                        assert(a@[k] == a@.skip(k)[0]);
                        assert(b@[k] == b@.skip(k)[0]);
                    }
                    return if c < d {
                        Placing::Before
                    } else {
                        Placing::After
                    };
                }
                proof {
                    assert(a@.skip(k).drop_first() =~= a@.skip(k + 1));
                    assert(b@.skip(k).drop_first() =~= b@.skip(k + 1));
                    k = k + 1;
                }
            },
        }
    }
}

/// A prefix longer by one holds one name more.
pub proof fn lemma_take_contains(names: Seq<Seq<char>>, i: int)
    requires
        0 <= i < names.len(),
    ensures
        forall|n: Seq<char>|
            #[trigger] names.take(i + 1).contains(n) <==> names.take(i).contains(n) || n == names[i],
{
    assert forall|n: Seq<char>|
        #[trigger] names.take(i + 1).contains(n) <==> names.take(i).contains(n) || n == names[i] by {
        if names.take(i).contains(n) {
            let k = choose|k: int| 0 <= k < i && names.take(i)[k] == n;
            assert(names.take(i + 1)[k] == n);
        }
        if n == names[i] {
            assert(names.take(i + 1)[i] == n);
        }
        let longer = names.take(i + 1);
        if longer.contains(n) {
            let k = choose|k: int| 0 <= k < longer.len() && longer[k] == n;
            if k < i {
                assert(names.take(i)[k] == n);
            }
        }
    }
}

/// Something that goes by a name.
pub trait Named {
    /// The name it goes by.
    spec fn label(&self) -> Seq<char>;

    /// The name it goes by.
    fn label_str(&self) -> (r: &str)
        ensures
            r@ == self.label(),
    ;
}

impl Named for String {
    open spec fn label(&self) -> Seq<char> {
        self@
    }

    fn label_str(&self) -> (r: &str) {
        self.as_str()
    }
}

impl Named for &str {
    open spec fn label(&self) -> Seq<char> {
        self@
    }

    fn label_str(&self) -> (r: &str) {
        *self
    }
}

/// The names that `items` go by, in order.
pub open spec fn labels<N: Named>(items: Seq<N>) -> Seq<Seq<char>> {
    items.map_values(|item: N| item.label())
}

/// The number of `items` whose names come before `name`.
pub fn lower_bound<N: Named>(items: &Vec<N>, name: &str) -> (r: usize)
    requires
        strictly_sorted(labels(items@)),
    ensures
        r <= items.len(),
        forall|i: int| 0 <= i < r ==> name_lt(#[trigger] labels(items@)[i], name@),
        forall|i: int| r <= i < items.len() ==> !name_lt(#[trigger] labels(items@)[i], name@),
        labels(items@).contains(name@) <==> r < items.len() && labels(items@)[r as int] == name@,
{
    let ghost names = labels(items@);
    let mut lo: usize = 0;
    let mut hi: usize = items.len();
    while lo < hi
        invariant
            names == labels(items@),
            strictly_sorted(names),
            lo <= hi <= items.len(),
            forall|i: int| 0 <= i < lo ==> name_lt(#[trigger] names[i], name@),
            forall|i: int| hi <= i < names.len() ==> !name_lt(#[trigger] names[i], name@),
        decreases hi - lo,
    {
        let mid: usize = lo + (hi - lo) / 2;
        assert(names[mid as int] == items[mid as int].label());
        match place_name(items[mid].label_str(), name) {
            Placing::Before => {
                proof {
                    assert forall|i: int| 0 <= i < mid + 1 implies name_lt(
                        #[trigger] names[i],
                        name@,
                    ) by {
                        if lo <= i < mid {
                            lemma_name_lt_transitive(names[i], names[mid as int], name@);
                        }
                    }
                }
                lo = mid + 1;
            },
            _ => {
                proof {
                    assert forall|i: int| mid <= i < names.len() implies !name_lt(
                        #[trigger] names[i],
                        name@,
                    ) by {
                        lemma_name_lt_irreflexive(name@);
                        if name_lt(names[i], name@) && mid < i {
                            lemma_name_lt_transitive(names[mid as int], names[i], name@);
                        }
                    }
                }
                hi = mid;
            },
        }
    }
    proof {
        if names.contains(name@) {
            let k = choose|k: int| 0 <= k < names.len() && names[k] == name@;
            lemma_name_lt_irreflexive(name@);
            assert(lo <= k);
            if lo < k {
                assert(name_lt(names[lo as int], names[k]));
            }
        }
    }
    lo
}

/// `r` lists exactly the names of which `p` holds, each once, in order.
pub open spec fn lists_sorted(r: Seq<Seq<char>>, p: spec_fn(Seq<char>) -> bool) -> bool {
    &&& strictly_sorted(r)
    &&& forall|n: Seq<char>| #[trigger] r.contains(n) <==> p(n)
}

/// `r` lists exactly the names of which `p` holds, each once.
pub open spec fn lists_once(r: Seq<Seq<char>>, p: spec_fn(Seq<char>) -> bool) -> bool {
    &&& r.no_duplicates()
    &&& forall|n: Seq<char>| #[trigger] r.contains(n) <==> p(n)
}

/// No name occurs twice in a sorted list.
pub proof fn lemma_sorted_once(names: Seq<Seq<char>>)
    requires
        strictly_sorted(names),
    ensures
        names.no_duplicates(),
{
    assert forall|i: int, j: int|
        0 <= i < names.len() && 0 <= j < names.len() && i != j implies names[i] != names[j] by {
        lemma_name_lt_irreflexive(names[i]);
        if i < j {
            assert(name_lt(names[i], names[j]));
        } else {
            assert(name_lt(names[j], names[i]));
        }
    }
}

/// A list of the names of a map that names none twice is as long as the map is large.
pub proof fn lemma_listing_len<T>(listed: Seq<Seq<char>>, map: Map<Seq<char>, T>)
    requires
        lists_once(listed, |n: Seq<char>| map.contains_key(n)),
    ensures
        map.dom().finite(),
        listed.len() == map.dom().len(),
{
    listed.unique_seq_to_set();
    vstd::seq_lib::seq_to_set_is_finite(listed);
    assert(listed.to_set() =~= map.dom());
}

/// There is only one sorted listing of a set of names.
pub proof fn lemma_sorted_listing_unique(a: Seq<Seq<char>>, b: Seq<Seq<char>>)
    requires
        strictly_sorted(a),
        strictly_sorted(b),
        forall|n: Seq<char>| a.contains(n) <==> b.contains(n),
    ensures
        a == b,
    decreases a.len(),
{
    if a.len() == 0 {
        if b.len() > 0 {
            assert(b.contains(b[0]));
        }
        assert(a =~= b);
    } else {
        assert(a.contains(a[0]));
        assert(b.len() > 0);
        assert(b.contains(b[0]));
        let i = choose|i: int| 0 <= i < b.len() && b[i] == a[0];
        let j = choose|j: int| 0 <= j < a.len() && a[j] == b[0];
        if a[0] != b[0] {
            assert(name_lt(b[0], b[i]));
            assert(name_lt(a[0], a[j]));
            lemma_name_lt_asymmetric(a[0], b[0]);
        }
        let x = a.drop_first();
        let y = b.drop_first();
        lemma_name_lt_irreflexive(a[0]);
        assert forall|n: Seq<char>| x.contains(n) <==> y.contains(n) by {
            if x.contains(n) {
                let k = choose|k: int| 0 <= k < x.len() && x[k] == n;
                assert(a[k + 1] == n);
                assert(name_lt(a[0], a[k + 1]));
                assert(a.contains(n));
                let m = choose|m: int| 0 <= m < b.len() && b[m] == n;
                assert(y[m - 1] == n);
            }
            if y.contains(n) {
                let k = choose|k: int| 0 <= k < y.len() && y[k] == n;
                assert(b[k + 1] == n);
                assert(name_lt(b[0], b[k + 1]));
                assert(b.contains(n));
                let m = choose|m: int| 0 <= m < a.len() && a[m] == n;
                assert(x[m - 1] == n);
            }
        }
        lemma_sorted_listing_unique(x, y);
        assert(a =~= seq![a[0]] + x);
        assert(b =~= seq![b[0]] + y);
    }
}

/// A name put at its place in a sorted list keeps it sorted.
pub proof fn lemma_insert_sorted(names: Seq<Seq<char>>, at: int, name: Seq<char>)
    requires
        strictly_sorted(names),
        0 <= at <= names.len(),
        forall|i: int| 0 <= i < at ==> name_lt(#[trigger] names[i], name),
        forall|i: int| at <= i < names.len() ==> !name_lt(#[trigger] names[i], name),
        !names.contains(name),
    ensures
        strictly_sorted(names.insert(at, name)),
        forall|n: Seq<char>|
            #[trigger] names.insert(at, name).contains(n) <==> names.contains(n) || n == name,
{
    let all = names.insert(at, name);
    assert forall|i: int, j: int| 0 <= i < j < all.len() implies name_lt(
        #[trigger] all[i],
        #[trigger] all[j],
    ) by {
        if i == at {
            assert(all[j] == names[j - 1]);
            assert(names.contains(names[j - 1]));
            lemma_name_lt_total(names[j - 1], name);
        } else if j == at {
            assert(all[i] == names[i]);
        } else {
            let x = if i < at { i } else { i - 1 };
            let y = if j < at { j } else { j - 1 };
            assert(all[i] == names[x]);
            assert(all[j] == names[y]);
        }
    }
    assert forall|n: Seq<char>| #[trigger] all.contains(n) <==> names.contains(n) || n == name by {
        if names.contains(n) {
            let k = choose|k: int| 0 <= k < names.len() && names[k] == n;
            if k < at {
                assert(all[k] == n);
            } else {
                assert(all[k + 1] == n);
            }
        }
        if n == name {
            assert(all[at] == n);
        }
        if all.contains(n) {
            let k = choose|k: int| 0 <= k < all.len() && all[k] == n;
            if k < at {
                assert(names[k] == n);
            } else if k > at {
                assert(names[k - 1] == n);
            }
        }
    }
}

/// Adds `name` to the sorted list, unless it stands there already.
pub fn add_name(names: &mut Vec<String>, name: &str)
    requires
        strictly_sorted(labels(old(names)@)),
    ensures
        strictly_sorted(labels(final(names)@)),
        forall|n: Seq<char>|
            #[trigger] labels(final(names)@).contains(n) <==> labels(old(names)@).contains(n) || n
                == name@,
{
    let ghost before = labels(names@);
    let at: usize = lower_bound(names, name);
    if at < names.len() && same_text(names[at].as_str(), name) {
        assert(before[at as int] == name@);
        assert(before.contains(name@));
        return;
    }
    proof {
        if before.contains(name@) {
            assert(names[at as int]@ == before[at as int]);
        }
        lemma_insert_sorted(before, at as int, name@);
    }
    names.insert(at, name.to_string());
    assert(labels(names@) =~= before.insert(at as int, name@));
}

/// A name in compact storage.
#[derive(Debug, PartialEq, Eq)]
pub struct Name {
    text: SmolStr,
}

impl View for Name {
    type V = Seq<char>;

    closed spec fn view(&self) -> Seq<char> {
        outside::smol_text(self.text)
    }
}

impl Name {
    /// The name that `text` spells.
    pub fn new(text: &str) -> (r: Name)
        ensures
            r@ == text@,
    {
        Name { text: smol_new(text) }
    }

    /// The spelling of the name.
    pub fn as_str(&self) -> (r: &str)
        ensures
            r@ == self@,
    {
        self.text.as_str()
    }
}

impl Clone for Name {
    fn clone(&self) -> (r: Self)
        ensures
            r@ == self@,
    {
        Name { text: self.text.clone() }
    }
}

/// One name of a `NameMap` with its value.
#[derive(Debug, PartialEq, Eq)]
struct Entry<T> {
    name: Name,
    value: T,
}

impl<T> Named for Entry<T> {
    closed spec fn label(&self) -> Seq<char> {
        self.name@
    }

    fn label_str(&self) -> (r: &str) {
        self.name.as_str()
    }
}

/// A map from names to values, kept in the order of the names.
#[derive(Debug, PartialEq, Eq)]
pub struct NameMap<T> {
    entries: Vec<Entry<T>>,
}

impl<T: View> View for NameMap<T> {
    type V = Map<Seq<char>, T::V>;

    closed spec fn view(&self) -> Map<Seq<char>, T::V> {
        Map::new(
            |n: Seq<char>| self.names().contains(n),
            |n: Seq<char>| self.entries@[self.names().index_of(n)].value@,
        )
    }
}

impl<T> NameMap<T> {
    /// The names of the map, in order.
    pub closed spec fn names(&self) -> Seq<Seq<char>> {
        labels(self.entries@)
    }

    #[verifier::type_invariant]
    spec fn ordered(self) -> bool {
        strictly_sorted(labels(self.entries@))
    }
}

impl<T: View> NameMap<T> {
    /// The empty map.
    pub fn new() -> (r: Self)
        ensures
            r@ == Map::<Seq<char>, T::V>::empty(),
    {
        let r: NameMap<T> = NameMap { entries: Vec::new() };
        assert(r@ =~= Map::<Seq<char>, T::V>::empty());
        r
    }

    /// The value at position `i` is the value of the name at position `i`.
    proof fn lemma_value_at(&self, i: int)
        requires
            self.ordered(),
            0 <= i < self.entries.len(),
        ensures
            self.names()[i] == self.entries@[i].name@,
            self@.contains_key(self.names()[i]),
            self@[self.names()[i]] == self.entries@[i].value@,
    {
        let n = self.names()[i];
        assert(self.names().contains(n));
        let k = self.names().index_of(n);
        assert(self.names()[k] == n);
        lemma_name_lt_irreflexive(n);
        assert(k == i);
    }

    /// The value of `name`.
    pub fn get(&self, name: &str) -> (r: Option<&T>)
        ensures
            match r {
                Some(value) => self@.contains_key(name@) && value@ == self@[name@],
                None => !self@.contains_key(name@),
            },
    {
        proof {
            use_type_invariant(self);
        }
        let at: usize = lower_bound(&self.entries, name);
        if at < self.entries.len() && same_text(self.entries[at].label_str(), name) {
            proof {
                self.lemma_value_at(at as int);
            }
            Some(&self.entries[at].value)
        } else {
            None
        }
    }

    /// The number of names.
    pub fn len(&self) -> (r: usize)
        ensures
            r == self.names().len(),
    {
        self.entries.len()
    }

    /// The map holds a value for exactly its names.
    pub proof fn lemma_all_names(&self)
        ensures
            forall|n: Seq<char>| #[trigger] self@.contains_key(n) <==> self.names().contains(n),
    {
    }

    /// The `i`-th name with its value.
    pub fn entry_at(&self, i: usize) -> (r: (&str, &T))
        requires
            i < self.names().len(),
        ensures
            r.0@ == self.names()[i as int],
            self@.contains_key(r.0@),
            r.1@ == self@[r.0@],
            lists_sorted(self.names(), |n: Seq<char>| self@.contains_key(n)),
    {
        proof {
            use_type_invariant(self);
            self.lemma_all_names();
            self.lemma_value_at(i as int);
        }
        (self.entries[i].name.as_str(), &self.entries[i].value)
    }

    /// All names, in order.
    pub fn all_names(&self) -> (r: Vec<&str>)
        ensures
            r@.map_values(|n: &str| n@) == self.names(),
            lists_sorted(self.names(), |n: Seq<char>| self@.contains_key(n)),
    {
        proof {
            use_type_invariant(self);
            self.lemma_all_names();
        }
        let mut r: Vec<&str> = Vec::new();
        for i in 0..self.entries.len()
            invariant
                r@.map_values(|n: &str| n@) =~= self.names().take(i as int),
        {
            assert(self.names()[i as int] == self.entries@[i as int].name@);
            r.push(self.entries[i].name.as_str());
            assert(self.names().take(i + 1) =~= self.names().take(i as int).push(
                self.names()[i as int],
            ));
        }
        assert(self.names().take(self.names().len() as int) =~= self.names());
        r
    }

    /// All values, in the order of their names.
    pub fn all_values(&self) -> (r: Vec<&T>)
        ensures
            r@.map_values(|value: &T| value@) == self.names().map_values(
                |n: Seq<char>| self@[n],
            ),
            lists_sorted(self.names(), |n: Seq<char>| self@.contains_key(n)),
    {
        proof {
            use_type_invariant(self);
            self.lemma_all_names();
        }
        let ghost values = self.names().map_values(|n: Seq<char>| self@[n]);
        let mut r: Vec<&T> = Vec::new();
        for i in 0..self.entries.len()
            invariant
                self.ordered(),
                values == self.names().map_values(|n: Seq<char>| self@[n]),
                r@.map_values(|value: &T| value@) =~= values.take(i as int),
        {
            proof {
                self.lemma_value_at(i as int);
            }
            r.push(&self.entries[i].value);
            assert(values.take(i + 1) =~= values.take(i as int).push(values[i as int]));
        }
        assert(values.take(values.len() as int) =~= values);
        r
    }

    /// Gives `name` the value `value`, in place of any that it had.
    pub fn insert(&mut self, name: &str, value: T)
        ensures
            final(self)@ == old(self)@.insert(name@, value@),
    {
        proof {
            use_type_invariant(&*self);
        }
        let ghost before = *self;
        let mut entries: Vec<Entry<T>> = Vec::new();
        std::mem::swap(&mut entries, &mut self.entries);
        let at: usize = lower_bound(&entries, name);
        let entry: Entry<T> = Entry { name: Name::new(name), value };
        if at < entries.len() && same_text(entries[at].label_str(), name) {
            entries.set(at, entry);
            assert(labels(entries@) =~= before.names());
        } else {
            proof {
                lemma_insert_sorted(before.names(), at as int, name@);
            }
            entries.insert(at, entry);
            assert(labels(entries@) =~= before.names().insert(at as int, name@));
        }
        self.entries = entries;
        proof {
            let after = *self;
            assert(after.ordered());
            assert(after.entries@[at as int].name@ == name@);
            after.lemma_value_at(at as int);
            assert forall|n: Seq<char>| #[trigger] before@.contains_key(n) && n != name@ implies
                after@.contains_key(n) && after@[n] == before@[n] by {
                let k = before.names().index_of(n);
                assert(before.names()[k] == n);
                before.lemma_value_at(k);
                if after.names().len() == before.names().len() || k < at {
                    after.lemma_value_at(k);
                } else {
                    after.lemma_value_at(k + 1);
                }
            }
            assert(after@ =~= before@.insert(name@, value@));
        }
    }

    /// Takes `name` out of the map, if it is there.
    pub fn remove(&mut self, name: &str)
        ensures
            final(self)@ == old(self)@.remove(name@),
    {
        proof {
            use_type_invariant(&*self);
        }
        let ghost before = *self;
        let mut entries: Vec<Entry<T>> = Vec::new();
        std::mem::swap(&mut entries, &mut self.entries);
        let at: usize = lower_bound(&entries, name);
        if at < entries.len() && same_text(entries[at].label_str(), name) {
            let _ = entries.remove(at);
            assert(labels(entries@) =~= before.names().remove(at as int));
            proof {
                lemma_name_lt_irreflexive(name@);
            }
            self.entries = entries;
            proof {
                let after = *self;
                assert(after.ordered());
                assert forall|n: Seq<char>| #[trigger] before@.contains_key(n) && n != name@ implies
                    after@.contains_key(n) && after@[n] == before@[n] by {
                    let k = before.names().index_of(n);
                    assert(before.names()[k] == n);
                    before.lemma_value_at(k);
                    if k < at {
                        after.lemma_value_at(k);
                    } else {
                        assert(k != at);
                        after.lemma_value_at(k - 1);
                    }
                }
                assert forall|n: Seq<char>| #[trigger] after@.contains_key(n) implies
                    before@.contains_key(n) && n != name@ by {
                    let k = after.names().index_of(n);
                    assert(after.names()[k] == n);
                    if k < at {
                        assert(before.names()[k] == n);
                        assert(name_lt(before.names()[k], before.names()[at as int]));
                    } else {
                        assert(before.names()[k + 1] == n);
                        assert(name_lt(before.names()[at as int], before.names()[k + 1]));
                    }
                }
                assert(after@ =~= before@.remove(name@));
            }
        } else {
            self.entries = entries;
            assert(self@ =~= before@.remove(name@));
        }
    }
}

/// A value that can be copied, the copy meaning the same.
pub trait Duplicate: View + Sized {
    /// A copy of the value.
    fn duplicate(&self) -> (r: Self)
        ensures
            r@ == self@,
    ;
}

impl Duplicate for Name {
    fn duplicate(&self) -> (r: Self) {
        self.clone()
    }
}

impl<T: Duplicate> Duplicate for NameMap<T> {
    fn duplicate(&self) -> (r: Self) {
        proof {
            use_type_invariant(self);
        }
        let mut entries: Vec<Entry<T>> = Vec::new();
        for i in 0..self.entries.len()
            invariant
                entries.len() == i,
                forall|k: int|
                    0 <= k < i ==> (#[trigger] entries@[k]).name@ == self.entries@[k].name@
                        && entries@[k].value@ == self.entries@[k].value@,
        {
            let entry = &self.entries[i];
            entries.push(Entry { name: entry.name.clone(), value: entry.value.duplicate() });
        }
        assert(labels(entries@) =~= labels(self.entries@));
        let r: NameMap<T> = NameMap { entries };
        proof {
            assert forall|n: Seq<char>| #[trigger] self@.contains_key(n) implies r@[n] == self@[n] by {
                let k = self.names().index_of(n);
                assert(self.names()[k] == n);
                self.lemma_value_at(k);
                r.lemma_value_at(k);
            }
            assert(r@ =~= self@);
        }
        r
    }
}

} // verus!
