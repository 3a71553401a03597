//! Names in dictionary order: sorted lists without repetitions, and a map from
//! names to values that is walked in that order.

use crate::text::chars_of;
use vstd::prelude::*;

verus! {

/// Dictionary order by character codes.
pub open spec fn precedes(a: Seq<char>, b: Seq<char>) -> bool
    decreases a.len(),
{
    if b.len() == 0 {
        false
    } else if a.len() == 0 {
        true
    } else if a[0] != b[0] {
        (a[0] as int) < (b[0] as int)
    } else {
        precedes(a.skip(1), b.skip(1))
    }
}

/// Every name stands before all that follow it.
pub open spec fn is_ascending(names: Seq<Seq<char>>) -> bool {
    forall|i: int, j: int|
        0 <= i < j < names.len() ==> precedes(#[trigger] names[i], #[trigger] names[j])
}

/// The names of a finite set in dictionary order.
pub open spec fn ascending(names: Set<Seq<char>>) -> Seq<Seq<char>> {
    choose|s: Seq<Seq<char>>| is_ascending(s) && #[trigger] s.to_set() == names
}

/// No name stands before itself.
pub proof fn lemma_precedes_irreflexive(a: Seq<char>)
    ensures
        !precedes(a, a),
    decreases a.len(),
{
    if a.len() > 0 {
        lemma_precedes_irreflexive(a.skip(1));
    }
}

/// The order is transitive.
pub proof fn lemma_precedes_transitive(a: Seq<char>, b: Seq<char>, c: Seq<char>)
    requires
        precedes(a, b),
        precedes(b, c),
    ensures
        precedes(a, c),
    decreases a.len(),
{
    if a.len() > 0 {
        if a[0] == b[0] && b[0] == c[0] {
            lemma_precedes_transitive(a.skip(1), b.skip(1), c.skip(1));
        }
    }
}

/// Of two different names one stands before the other.
pub proof fn lemma_precedes_total(a: Seq<char>, b: Seq<char>)
    ensures
        a == b || precedes(a, b) || precedes(b, a),
    decreases a.len(),
{
    if a.len() == 0 || b.len() == 0 {
        if a.len() == 0 && b.len() == 0 {
            assert(a =~= b);
        }
    } else if a[0] == b[0] {
        lemma_precedes_total(a.skip(1), b.skip(1));
        if a.skip(1) == b.skip(1) {
            assert(a =~= seq![a[0]] + a.skip(1));
            assert(b =~= seq![b[0]] + b.skip(1));
        }
    }
}

/// Two ascending sequences of the same names are the same sequence.
pub proof fn lemma_ascending_unique(a: Seq<Seq<char>>, b: Seq<Seq<char>>)
    requires
        is_ascending(a),
        is_ascending(b),
        a.to_set() == b.to_set(),
    ensures
        a == b,
    decreases a.len(),
{
    if a.len() == 0 {
        if b.len() > 0 {
            assert(b.to_set().contains(b[0]));
            assert(false);
        }
        assert(a =~= b);
    } else {
        assert(a.to_set().contains(a.last()));
        assert(b.contains(a.last()));
        let x = a.last();
        let y = b.last();
        assert(b.to_set().contains(y));
        assert(a.contains(y));
        let i = choose|i: int| 0 <= i < a.len() && a[i] == y;
        let j = choose|j: int| 0 <= j < b.len() && b[j] == x;
        if x != y {
            assert(precedes(a[i], a[a.len() - 1]));
            assert(precedes(b[j], b[b.len() - 1]));
            lemma_precedes_transitive(x, y, x);
            lemma_precedes_irreflexive(x);
            assert(false);
        }
        let a1 = a.drop_last();
        let b1 = b.drop_last();
        assert(a1.to_set() =~= b1.to_set()) by {
            assert forall|n: Seq<char>| a1.to_set().contains(n) <==> b1.to_set().contains(n) by {
                if a1.contains(n) {
                    let k = choose|k: int| 0 <= k < a1.len() && a1[k] == n;
                    assert(a[k] == n);
                    assert(precedes(a[k], a[a.len() - 1]));
                    lemma_precedes_irreflexive(n);
                    assert(a.to_set().contains(n));
                    assert(b.contains(n));
                    let m = choose|m: int| 0 <= m < b.len() && b[m] == n;
                    assert(m < b.len() - 1);
                    assert(b1[m] == n);
                }
                if b1.contains(n) {
                    let k = choose|k: int| 0 <= k < b1.len() && b1[k] == n;
                    assert(b[k] == n);
                    assert(precedes(b[k], b[b.len() - 1]));
                    lemma_precedes_irreflexive(n);
                    assert(b.to_set().contains(n));
                    assert(a.contains(n));
                    let m = choose|m: int| 0 <= m < a.len() && a[m] == n;
                    assert(m < a.len() - 1);
                    assert(a1[m] == n);
                }
            }
        }
        lemma_ascending_unique(a1, b1);
        assert(a =~= a1.push(x));
        assert(b =~= b1.push(y));
    }
}

/// An ascending sequence is the ordered form of the set of its names.
pub proof fn lemma_ascending_is(names: Seq<Seq<char>>)
    requires
        is_ascending(names),
    ensures
        ascending(names.to_set()) == names,
{
    let chosen = ascending(names.to_set());
    assert(is_ascending(names) && names.to_set() == names.to_set());
    lemma_ascending_unique(chosen, names);
}

/// Inserting a name between the smaller and the larger ones keeps the order.
pub proof fn lemma_ascending_insert(names: Seq<Seq<char>>, at: int, name: Seq<char>)
    requires
        is_ascending(names),
        0 <= at <= names.len(),
        forall|i: int| 0 <= i < at ==> precedes(#[trigger] names[i], name),
        forall|i: int| at <= i < names.len() ==> precedes(name, #[trigger] names[i]),
    ensures
        is_ascending(names.insert(at, name)),
        names.insert(at, name).to_set() == names.to_set().insert(name),
{
    let bigger = names.insert(at, name);
    assert forall|i: int, j: int| 0 <= i < j < bigger.len() implies precedes(
        #[trigger] bigger[i],
        #[trigger] bigger[j],
    ) by {
        let i1 = if i < at { i } else { i - 1 };
        let j1 = if j < at { j } else { j - 1 };
        if i != at {
            assert(bigger[i] == names[i1]);
        }
        if j != at {
            assert(bigger[j] == names[j1]);
        }
    }
    assert(bigger.to_set() =~= names.to_set().insert(name)) by {
        assert forall|n: Seq<char>| names.to_set().insert(name).contains(n) implies bigger.to_set().contains(n) by {
            if n == name {
                assert(bigger[at] == name);
            } else {
                let k = choose|k: int| 0 <= k < names.len() && names[k] == n;
                assert(bigger[if k < at { k } else { k + 1 }] == n);
            }
        }
        assert forall|n: Seq<char>| bigger.to_set().contains(n) implies names.to_set().insert(name).contains(n) by {
            let k = choose|k: int| 0 <= k < bigger.len() && bigger[k] == n;
            if k != at {
                assert(names[if k < at { k } else { k - 1 }] == n);
            }
        }
    }
}

/// How two names stand to each other.
pub enum Position {
    Before,
    Same,
    After,
}

/// The code of a character.
fn code(c: char) -> (n: u32)
    ensures
        n as int == c as int,
{
    c as u32
}

/// The place of `a` relative to `b` in dictionary order.
pub fn position(a: &str, b: &str) -> (place: Position)
    ensures
        (place is Before) == precedes(a@, b@),
        (place is Same) == (a@ == b@),
        (place is After) == precedes(b@, a@),
{
    let left: Vec<char> = chars_of(a);
    let right: Vec<char> = chars_of(b);
    let mut i: usize = 0;
    assert(a@.skip(0) =~= a@);
    assert(b@.skip(0) =~= b@);
    while i < left.len() && i < right.len()
        invariant
            i <= left.len(),
            i <= right.len(),
            left@ == a@,
            right@ == b@,
            a@.take(i as int) == b@.take(i as int),
            precedes(a@, b@) == precedes(a@.skip(i as int), b@.skip(i as int)),
            precedes(b@, a@) == precedes(b@.skip(i as int), a@.skip(i as int)),
        decreases left.len() - i,
    {
        let x: u32 = code(left[i]);
        let y: u32 = code(right[i]);
        assert(a@.skip(i as int)[0] == left@[i as int]);
        assert(b@.skip(i as int)[0] == right@[i as int]);
        if x != y {
            if x < y {
                proof {
                    lemma_precedes_exclusive(a@, b@);
                }
                return Position::Before;
            } else {
                proof {
                    lemma_precedes_exclusive(b@, a@);
                }
                return Position::After;
            }
        }
        proof {
            assert(left@[i as int] == right@[i as int]);
            assert(a@.skip(i as int).skip(1) =~= a@.skip(i as int + 1));
            assert(b@.skip(i as int).skip(1) =~= b@.skip(i as int + 1));
            assert(a@.take(i as int + 1) =~= a@.take(i as int).push(a@[i as int]));
            assert(b@.take(i as int + 1) =~= b@.take(i as int).push(b@[i as int]));
        }
        i += 1;
    }
    if i < right.len() {
        proof {
            lemma_precedes_exclusive(a@, b@);
        }
        Position::Before
    } else if i < left.len() {
        proof {
            lemma_precedes_exclusive(b@, a@);
        }
        Position::After
    } else {
        proof {
            assert(a@.take(i as int) =~= a@);
            assert(b@.take(i as int) =~= b@);
            lemma_precedes_irreflexive(a@);
        }
        Position::Same
    }
}

/// A name that stands before another is neither equal to it nor after it.
pub proof fn lemma_precedes_exclusive(a: Seq<char>, b: Seq<char>)
    requires
        precedes(a, b),
    ensures
        a != b,
        !precedes(b, a),
{
    lemma_precedes_irreflexive(a);
    if precedes(b, a) {
        lemma_precedes_transitive(a, b, a);
    }
}

/// Where a name stands in an ascending list, or where it would go.
pub enum Slot {
    Found(usize),
    Free(usize),
}

/// Looks a name up in an ascending list.
pub fn locate(names: &Vec<String>, name: &str) -> (slot: Slot)
    requires
        is_ascending(names.deep_view()),
    ensures
        match slot {
            Slot::Found(at) => at < names.len() && names.deep_view()[at as int] == name@,
            Slot::Free(at) => {
                &&& at <= names.len()
                &&& !names.deep_view().contains(name@)
                &&& forall|k: int|
                    0 <= k < at ==> precedes(#[trigger] names.deep_view()[k], name@)
                &&& forall|k: int|
                    at <= k < names.len() ==> precedes(name@, #[trigger] names.deep_view()[k])
            },
        },
{
    let ghost known = names.deep_view();
    let mut at: usize = 0;
    while at < names.len()
        invariant
            at <= names.len(),
            known == names.deep_view(),
            is_ascending(known),
            forall|k: int| 0 <= k < at ==> precedes(#[trigger] known[k], name@),
        decreases names.len() - at,
    {
        match position(names[at].as_str(), name) {
            Position::Before => {
                assert(known[at as int] == names@[at as int]@);
            },
            Position::Same => {
                return Slot::Found(at);
            },
            Position::After => {
                assert(known[at as int] == names@[at as int]@);
                proof {
                    assert forall|k: int| at <= k < known.len() implies precedes(
                        name@,
                        #[trigger] known[k],
                    ) by {
                        if k > at {
                            assert(precedes(known[at as int], known[k]));
                            lemma_precedes_transitive(name@, known[at as int], known[k]);
                        }
                    }
                    lemma_absent(known, at as int, name@);
                }
                return Slot::Free(at);
            },
        }
        at += 1;
    }
    proof {
        lemma_absent(known, at as int, name@);
    }
    Slot::Free(at)
}

/// A name with all the smaller names below some place and all the larger ones
/// above it is not in the list.
proof fn lemma_absent(names: Seq<Seq<char>>, at: int, name: Seq<char>)
    requires
        0 <= at <= names.len(),
        forall|k: int| 0 <= k < at ==> precedes(#[trigger] names[k], name),
        forall|k: int| at <= k < names.len() ==> precedes(name, #[trigger] names[k]),
    ensures
        !names.contains(name),
{
    lemma_precedes_irreflexive(name);
    if names.contains(name) {
        let k = choose|k: int| 0 <= k < names.len() && names[k] == name;
        assert(precedes(names[k], name) || precedes(name, names[k]));
    }
}

/// The names in dictionary order, each once.
pub fn sorted_unique(names: Vec<String>) -> (sorted: Vec<String>)
    ensures
        sorted.deep_view() == ascending(names.deep_view().to_set()),
        is_ascending(sorted.deep_view()),
        sorted.deep_view().to_set() == names.deep_view().to_set(),
{
    let mut sorted: Vec<String> = Vec::new();
    let mut i: usize = 0;
    assert(names.deep_view().take(0).to_set() =~= sorted.deep_view().to_set());
    while i < names.len()
        invariant
            i <= names.len(),
            is_ascending(sorted.deep_view()),
            sorted.deep_view().to_set() == names.deep_view().take(i as int).to_set(),
        decreases names.len() - i,
    {
        let ghost known = sorted.deep_view();
        let ghost seen = names.deep_view().take(i as int);
        let ghost name = names.deep_view()[i as int];
        proof {
            assert(names.deep_view().take(i as int + 1) =~= seen.push(name));
            seen.lemma_push_to_set_commute(name);
        }
        match locate(&sorted, names[i].as_str()) {
            Slot::Found(at) => {
                assert(known[at as int] == name);
                assert(known.to_set().insert(name) =~= known.to_set());
            },
            Slot::Free(at) => {
                proof {
                    lemma_ascending_insert(known, at as int, name);
                }
                sorted.insert(at, names[i].clone());
                assert(sorted.deep_view() =~= known.insert(at as int, name));
            },
        }
        i += 1;
    }
    assert(names.deep_view().take(i as int) =~= names.deep_view());
    proof {
        lemma_ascending_is(sorted.deep_view());
    }
    sorted
}

/// The values of a map in the order of their names.
pub open spec fn in_order<V>(map: Map<Seq<char>, V>) -> Seq<V> {
    ascending(map.dom()).map_values(|name: Seq<char>| map[name])
}

/// A map from names to values that is walked in the order of the names.
pub struct NameMap<V> {
    keys: Vec<String>,
    values: Vec<V>,
}

impl<V> View for NameMap<V> {
    type V = Map<Seq<char>, V>;

    closed spec fn view(&self) -> Map<Seq<char>, V> {
        Map::new(
            |name: Seq<char>| self.keys.deep_view().contains(name),
            |name: Seq<char>| self.values@[self.keys.deep_view().index_of(name)],
        )
    }
}

impl<V> NameMap<V> {
    /// The names are in order, each with its value.
    pub closed spec fn wf(&self) -> bool {
        &&& self.keys.len() == self.values.len()
        &&& is_ascending(self.keys.deep_view())
    }

    /// In an ascending list a name has only one place.
    proof fn lemma_place(&self, at: int)
        requires
            self.wf(),
            0 <= at < self.keys.len(),
        ensures
            self@.dom().contains(self.keys.deep_view()[at]),
            self@[self.keys.deep_view()[at]] == self.values@[at],
    {
        let names = self.keys.deep_view();
        let name = names[at];
        assert(names.contains(name));
        let k = names.index_of(name);
        if k != at {
            lemma_precedes_irreflexive(name);
            if k < at {
                assert(precedes(names[k], names[at]));
            } else {
                assert(precedes(names[at], names[k]));
            }
        }
    }

    /// The walk visits exactly the names of the map, in ascending order.
    pub proof fn lemma_order(&self)
        requires
            self.wf(),
        ensures
            is_ascending(ascending(self@.dom())),
            ascending(self@.dom()).to_set() == self@.dom(),
            ascending(self@.dom()).len() <= usize::MAX,
    {
        self.lemma_keys();
    }

    proof fn lemma_keys(&self)
        requires
            self.wf(),
        ensures
            ascending(self@.dom()) == self.keys.deep_view(),
            self.keys.deep_view().to_set() == self@.dom(),
    {
        assert(self.keys.deep_view().to_set() =~= self@.dom());
        lemma_ascending_is(self.keys.deep_view());
    }

    /// A map without names.
    pub fn new() -> (map: Self)
        ensures
            map.wf(),
            map@ == Map::<Seq<char>, V>::empty(),
    {
        let map = NameMap { keys: Vec::new(), values: Vec::new() };
        assert(map@ =~= Map::<Seq<char>, V>::empty());
        map
    }

    /// The value of a name.
    pub fn get(&self, name: &str) -> (value: Option<&V>)
        requires
            self.wf(),
        ensures
            match value {
                Some(v) => self@.dom().contains(name@) && self@[name@] == *v,
                None => !self@.dom().contains(name@),
            },
    {
        match locate(&self.keys, name) {
            Slot::Found(at) => {
                proof {
                    self.lemma_place(at as int);
                }
                Some(&self.values[at])
            },
            Slot::Free(_) => None,
        }
    }

    /// Gives a name a value, in place of the one it had.
    pub fn insert(&mut self, name: String, value: V)
        requires
            old(self).wf(),
        ensures
            final(self).wf(),
            final(self)@ == old(self)@.insert(name@, value),
    {
        let ghost names = self.keys.deep_view();
        let ghost values = self.values@;
        match locate(&self.keys, name.as_str()) {
            Slot::Found(at) => {
                self.values.set(at, value);
                proof {
                    assert(self.keys.deep_view() == names);
                    assert forall|n: Seq<char>| names.contains(n) && n != name@ implies #[trigger] names.index_of(
                        n,
                    ) != at by {}
                    self.lemma_place(at as int);
                    assert(self@ =~= old(self)@.insert(name@, value));
                }
            },
            Slot::Free(at) => {
                proof {
                    lemma_ascending_insert(names, at as int, name@);
                }
                self.keys.insert(at, name);
                self.values.insert(at, value);
                proof {
                    assert(self.keys.deep_view() =~= names.insert(at as int, name@));
                    self.lemma_place(at as int);
                    self.lemma_keys();
                    old(self).lemma_keys();
                    assert forall|n: Seq<char>| old(self)@.dom().contains(n) implies #[trigger] self@[n]
                        == old(self)@[n] by {
                        let k = choose|k: int| 0 <= k < names.len() && names[k] == n;
                        old(self).lemma_place(k);
                        let k1 = if k < at { k } else { k + 1 };
                        assert(self.keys.deep_view()[k1] == n);
                        self.lemma_place(k1);
                    }
                    assert(self@ =~= old(self)@.insert(name@, value));
                }
            },
        }
    }

    /// Takes a name out.
    pub fn remove(&mut self, name: &str)
        requires
            old(self).wf(),
        ensures
            final(self).wf(),
            final(self)@ == old(self)@.remove(name@),
    {
        let ghost names = self.keys.deep_view();
        match locate(&self.keys, name) {
            Slot::Found(at) => {
                let _ = self.keys.remove(at);
                let _ = self.values.remove(at);
                proof {
                    let fewer = self.keys.deep_view();
                    assert(fewer =~= names.remove(at as int));
                    assert forall|i: int, j: int| 0 <= i < j < fewer.len() implies precedes(
                        #[trigger] fewer[i],
                        #[trigger] fewer[j],
                    ) by {
                        let i1 = if i < at { i } else { i + 1 };
                        let j1 = if j < at { j } else { j + 1 };
                        assert(precedes(names[i1], names[j1]));
                    }
                    self.lemma_keys();
                    old(self).lemma_keys();
                    assert forall|n: Seq<char>| #[trigger] self@.dom().contains(n) implies old(
                        self,
                    )@.remove(name@).dom().contains(n) && self@[n] == old(self)@[n] by {
                        let k = choose|k: int| 0 <= k < fewer.len() && fewer[k] == n;
                        self.lemma_place(k);
                        let k1 = if k < at { k } else { k + 1 };
                        assert(names[k1] == n);
                        old(self).lemma_place(k1);
                        lemma_precedes_irreflexive(n);
                        assert(precedes(names[k1], names[at as int]) || precedes(
                            names[at as int],
                            names[k1],
                        ));
                    }
                    assert forall|n: Seq<char>| old(self)@.remove(name@).dom().contains(n) implies #[trigger] self@.dom().contains(
                        n,
                    ) by {
                        let k = choose|k: int| 0 <= k < names.len() && names[k] == n;
                        let k1 = if k < at { k } else { k - 1 };
                        assert(fewer[k1] == n);
                    }
                    assert(self@ =~= old(self)@.remove(name@));
                }
            },
            Slot::Free(_) => {
                assert(self@ =~= old(self)@.remove(name@));
            },
        }
    }

    /// Takes all names out.
    pub fn clear(&mut self)
        ensures
            final(self).wf(),
            final(self)@ == Map::<Seq<char>, V>::empty(),
    {
        self.keys.clear();
        self.values.clear();
        assert(self@ =~= Map::<Seq<char>, V>::empty());
    }

    /// The number of names.
    pub fn len(&self) -> (n: usize)
        requires
            self.wf(),
        ensures
            n == ascending(self@.dom()).len(),
    {
        proof {
            self.lemma_keys();
        }
        self.keys.len()
    }

    /// The value whose name comes at a given place of the walk.
    pub fn value_at(&self, at: usize) -> (value: &V)
        requires
            self.wf(),
            at < ascending(self@.dom()).len(),
        ensures
            *value == self@[ascending(self@.dom())[at as int]],
            *value == in_order(self@)[at as int],
    {
        proof {
            self.lemma_keys();
            self.lemma_place(at as int);
        }
        &self.values[at]
    }
}

impl<V: DeepView> DeepView for NameMap<V> {
    type V = Map<Seq<char>, V::V>;

    open spec fn deep_view(&self) -> Map<Seq<char>, V::V> {
        self@.map_values(|value: V| value.deep_view())
    }
}

impl<V: DeepView> NameMap<V> {
    /// The walk visits what the values stand for.
    pub proof fn lemma_deep_order(&self, at: int)
        requires
            self.wf(),
            0 <= at < ascending(self@.dom()).len(),
        ensures
            self.deep_view().dom() == self@.dom(),
            in_order(self.deep_view()).len() == ascending(self@.dom()).len(),
            in_order(self.deep_view())[at] == in_order(self@)[at].deep_view(),
    {
        self.lemma_order();
        assert(self.deep_view().dom() =~= self@.dom());
        let names = ascending(self@.dom());
        assert(names.to_set().contains(names[at]));
    }
}

} // verus!
