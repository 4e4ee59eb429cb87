//! An ordered table keyed by name. Lookups find the first entry with a given
//! name; insertion replaces that entry's value in place or appends a new entry,
//! so names stay unique and the order in which they were first added is kept.
use vstd::prelude::*;

verus! {

/// The index of the first entry of `s` named `k`, or -1 when there is none.
#[verifier::opaque]
pub open spec fn key_index<V>(s: Seq<(Seq<char>, V)>, k: Seq<char>) -> int {
    if exists|i: int| 0 <= i < s.len() && s[i].0 == k {
        choose|i: int| 0 <= i < s.len() && s[i].0 == k && forall|j: int| 0 <= j < i ==> s[j].0 != k
    } else {
        -1
    }
}

/// The value stored under `k`, if any.
pub open spec fn lookup<V>(s: Seq<(Seq<char>, V)>, k: Seq<char>) -> Option<V> {
    let i = key_index(s, k);
    if 0 <= i { Some(s[i].1) } else { None }
}

/// `s` with the value under `k` replaced by `v`, or with `(k, v)` appended
/// when `k` is absent.
pub open spec fn upsert<V>(s: Seq<(Seq<char>, V)>, k: Seq<char>, v: V) -> Seq<(Seq<char>, V)> {
    let i = key_index(s, k);
    if 0 <= i { s.update(i, (k, v)) } else { s.push((k, v)) }
}

/// The names of the entries, in order.
pub open spec fn keys<V>(s: Seq<(Seq<char>, V)>) -> Seq<Seq<char>> {
    s.map_values(|e: (Seq<char>, V)| e.0)
}

/// `a` with each entry of `b` appended, in order, unless its name is already
/// present: the first value stored under a name is kept.
pub open spec fn keep_first<V>(a: Seq<(Seq<char>, V)>, b: Seq<(Seq<char>, V)>) -> Seq<(Seq<char>, V)>
    decreases b.len(),
{
    if b.len() == 0 {
        a
    } else {
        let m = keep_first(a, b.drop_last());
        if 0 <= key_index(m, b.last().0) { m } else { m.push(b.last()) }
    }
}

/// `a` with each entry of `b` stored in turn: the last value stored under a
/// name wins.
pub open spec fn overwrite<V>(a: Seq<(Seq<char>, V)>, b: Seq<(Seq<char>, V)>) -> Seq<(Seq<char>, V)>
    decreases b.len(),
{
    if b.len() == 0 {
        a
    } else {
        upsert(overwrite(a, b.drop_last()), b.last().0, b.last().1)
    }
}

/// `a` with each list of `b` appended to the list under the same name, or
/// added as a new entry when the name is absent.
pub open spec fn append_lists<T>(a: Seq<(Seq<char>, Seq<T>)>, b: Seq<(Seq<char>, Seq<T>)>) -> Seq<(Seq<char>, Seq<T>)>
    decreases b.len(),
{
    if b.len() == 0 {
        a
    } else {
        let m = append_lists(a, b.drop_last());
        let i = key_index(m, b.last().0);
        if 0 <= i { m.update(i, (m[i].0, m[i].1 + b.last().1)) } else { m.push(b.last()) }
    }
}

/// A table of lists, each list as the sequence it holds.
pub open spec fn list_view<T>(s: Seq<(Seq<char>, Vec<T>)>) -> Seq<(Seq<char>, Seq<T>)> {
    s.map_values(|e: (Seq<char>, Vec<T>)| (e.0, e.1@))
}

/// The view of a vector of named entries.
pub open spec fn entries_view<V>(v: Seq<(String, V)>) -> Seq<(Seq<char>, V)> {
    v.map_values(|e: (String, V)| (e.0@, e.1))
}

/// The first entry named `k` is at index `i`.
pub proof fn lemma_key_index_at<V>(s: Seq<(Seq<char>, V)>, k: Seq<char>, i: int)
    requires
        0 <= i < s.len(),
        s[i].0 == k,
        forall|j: int| 0 <= j < i ==> s[j].0 != k,
    ensures
        key_index(s, k) == i,
{
    reveal(key_index);
    let c = key_index(s, k);
    assert(0 <= c < s.len() && s[c].0 == k && forall|j: int| 0 <= j < c ==> s[j].0 != k);
    if c < i {
        assert(s[c].0 != k);
    } else if c > i {
        assert(s[i].0 != k);
    }
}

/// No entry of `s` is named `k`.
pub proof fn lemma_key_index_absent<V>(s: Seq<(Seq<char>, V)>, k: Seq<char>)
    requires
        forall|j: int| 0 <= j < s.len() ==> s[j].0 != k,
    ensures
        key_index(s, k) == -1,
{
    reveal(key_index);
}

/// `key_index` is -1 or the index of the first entry named `k`.
pub proof fn lemma_key_index_bounds<V>(s: Seq<(Seq<char>, V)>, k: Seq<char>)
    ensures
        -1 <= key_index(s, k) < s.len(),
        key_index(s, k) == -1 <==> forall|j: int| 0 <= j < s.len() ==> s[j].0 != k,
        0 <= key_index(s, k) ==> s[key_index(s, k)].0 == k,
        0 <= key_index(s, k) ==> forall|j: int| 0 <= j < key_index(s, k) ==> s[j].0 != k,
{
    reveal(key_index);
    if exists|i: int| 0 <= i < s.len() && s[i].0 == k {
        let w = choose|i: int| 0 <= i < s.len() && s[i].0 == k;
        lemma_first_exists(s, k, w);
    }
}

proof fn lemma_first_exists<V>(s: Seq<(Seq<char>, V)>, k: Seq<char>, w: int)
    requires
        0 <= w < s.len(),
        s[w].0 == k,
    ensures
        exists|i: int| 0 <= i < s.len() && s[i].0 == k && forall|j: int| 0 <= j < i ==> s[j].0 != k,
    decreases w,
{
    if exists|j: int| 0 <= j < w && s[j].0 == k {
        let j = choose|j: int| 0 <= j < w && s[j].0 == k;
        lemma_first_exists(s, k, j);
    } else {
        assert(forall|j: int| 0 <= j < w ==> s[j].0 != k);
    }
}

/// Lookups by name depend on the names alone.
pub proof fn lemma_key_index_same_keys<V, W>(s1: Seq<(Seq<char>, V)>, s2: Seq<(Seq<char>, W)>, k: Seq<char>)
    requires
        s1.len() == s2.len(),
        forall|i: int| 0 <= i < s1.len() ==> s1[i].0 == s2[i].0,
    ensures
        key_index(s1, k) == key_index(s2, k),
{
    lemma_key_index_bounds(s1, k);
    let i = key_index(s1, k);
    if 0 <= i {
        lemma_key_index_at(s2, k, i);
    } else {
        lemma_key_index_absent(s2, k);
    }
}

/// Appending an entry under another name leaves a lookup unchanged.
pub proof fn lemma_lookup_push_other<V>(m: Seq<(Seq<char>, V)>, e: (Seq<char>, V), k: Seq<char>)
    requires
        e.0 != k,
    ensures
        lookup(m.push(e), k) == lookup(m, k),
{
    lemma_key_index_bounds(m, k);
    let i = key_index(m, k);
    if 0 <= i {
        lemma_key_index_at(m.push(e), k, i);
    } else {
        lemma_key_index_absent(m.push(e), k);
    }
}

/// Replacing the value of an entry under another name leaves a lookup
/// unchanged.
pub proof fn lemma_lookup_update_other<V>(m: Seq<(Seq<char>, V)>, i: int, x: V, k: Seq<char>)
    requires
        0 <= i < m.len(),
        m[i].0 != k,
    ensures
        lookup(m.update(i, (m[i].0, x)), k) == lookup(m, k),
{
    let m2 = m.update(i, (m[i].0, x));
    lemma_key_index_same_keys(m, m2, k);
    lemma_key_index_bounds(m, k);
}

/// Replacing the value of the first entry named `k` makes it the value found.
pub proof fn lemma_lookup_update_same<V>(m: Seq<(Seq<char>, V)>, k: Seq<char>, x: V)
    requires
        0 <= key_index(m, k),
    ensures
        lookup(m.update(key_index(m, k), (k, x)), k) == Some(x),
{
    lemma_key_index_bounds(m, k);
    let i = key_index(m, k);
    let m2 = m.update(i, (k, x));
    lemma_key_index_same_keys(m, m2, k);
}

/// Storing `v` under `k` makes it the value found under `k`; other names
/// are unaffected.
pub proof fn lemma_lookup_upsert<V>(m: Seq<(Seq<char>, V)>, k: Seq<char>, v: V, q: Seq<char>)
    ensures
        lookup(upsert(m, k, v), k) == Some(v),
        q != k ==> lookup(upsert(m, k, v), q) == lookup(m, q),
{
    lemma_key_index_bounds(m, k);
    let i = key_index(m, k);
    if 0 <= i {
        lemma_lookup_update_same(m, k, v);
        if q != k {
            lemma_lookup_update_other(m, i, v, q);
        }
    } else {
        lemma_key_index_at(m.push((k, v)), k, m.len() as int);
        if q != k {
            lemma_lookup_push_other(m, (k, v), q);
        }
    }
}

/// With unique names, no entry before the last shares its name, and the
/// names before it are unique too.
proof fn lemma_last_unique<V>(b: Seq<(Seq<char>, V)>)
    requires
        b.len() > 0,
        keys(b).no_duplicates(),
    ensures
        keys(b.drop_last()).no_duplicates(),
        forall|j: int| 0 <= j < b.len() - 1 ==> b[j].0 != b.last().0,
{
    let n = b.len() - 1;
    let kb = keys(b);
    let kd = keys(b.drop_last());
    assert(kd =~= kb.drop_last());
    assert forall|j: int| 0 <= j < n implies b[j].0 != b.last().0 by {
        assert(kb[j] == b[j].0);
        assert(kb[n] == b[n].0);
    }
}

/// With unique names, the last entry's name is found only there, and
/// dropping the last entry leaves lookups of other names unchanged.
pub proof fn lemma_lookup_drop_last<V>(b: Seq<(Seq<char>, V)>, k: Seq<char>)
    requires
        b.len() > 0,
        keys(b).no_duplicates(),
    ensures
        keys(b.drop_last()).no_duplicates(),
        b.last().0 == k ==> lookup(b, k) == Some(b.last().1),
        b.last().0 == k ==> lookup(b.drop_last(), k) is None,
        b.last().0 != k ==> lookup(b.drop_last(), k) == lookup(b, k),
{
    let n = b.len() - 1;
    let d = b.drop_last();
    lemma_last_unique(b);
    assert(forall|j: int| 0 <= j < d.len() ==> d[j] == b[j]);
    if b.last().0 == k {
        lemma_key_index_at(b, k, n);
        lemma_key_index_absent(d, k);
    } else {
        lemma_key_index_bounds(d, k);
        let i = key_index(d, k);
        if 0 <= i {
            lemma_key_index_at(b, k, i);
        } else {
            lemma_key_index_absent(b, k);
        }
    }
}

/// Keeping the first value: a name present in `a` keeps its value.
pub proof fn lemma_keep_first_keeps<V>(a: Seq<(Seq<char>, V)>, b: Seq<(Seq<char>, V)>, k: Seq<char>)
    requires
        lookup(a, k) is Some,
    ensures
        lookup(keep_first(a, b), k) == lookup(a, k),
    decreases b.len(),
{
    if b.len() > 0 {
        lemma_keep_first_keeps(a, b.drop_last(), k);
        let m = keep_first(a, b.drop_last());
        if key_index(m, b.last().0) < 0 {
            lemma_key_index_bounds(m, b.last().0);
            lemma_key_index_bounds(m, k);
            lemma_lookup_push_other(m, b.last(), k);
        }
    }
}

/// Overwriting: a name present in `b` ends with `b`'s value.
pub proof fn lemma_overwrite_takes<V>(a: Seq<(Seq<char>, V)>, b: Seq<(Seq<char>, V)>, k: Seq<char>)
    requires
        keys(b).no_duplicates(),
        lookup(b, k) is Some,
    ensures
        lookup(overwrite(a, b), k) == lookup(b, k),
    decreases b.len(),
{
    lemma_key_index_bounds(b, k);
    let m = overwrite(a, b.drop_last());
    lemma_lookup_drop_last(b, k);
    lemma_lookup_upsert(m, b.last().0, b.last().1, k);
    if b.last().0 != k {
        lemma_overwrite_takes(a, b.drop_last(), k);
    }
}

/// Appending lists where `b` has no list under `k` leaves the list under `k`
/// unchanged.
pub proof fn lemma_append_lists_absent<T>(a: Seq<(Seq<char>, Seq<T>)>, b: Seq<(Seq<char>, Seq<T>)>, k: Seq<char>)
    requires
        lookup(b, k) is None,
    ensures
        lookup(append_lists(a, b), k) == lookup(a, k),
    decreases b.len(),
{
    if b.len() > 0 {
        let n = b.len() - 1;
        lemma_key_index_bounds(b, k);
        assert(b[n].0 != k);
        let d = b.drop_last();
        lemma_key_index_bounds(d, k);
        if 0 <= key_index(d, k) {
            let i = key_index(d, k);
            assert(b[i].0 == k);
        }
        lemma_append_lists_absent(a, d, k);
        let m = append_lists(a, d);
        let i = key_index(m, b.last().0);
        lemma_key_index_bounds(m, b.last().0);
        if 0 <= i {
            lemma_lookup_update_other(m, i, m[i].1 + b.last().1, k);
        } else {
            lemma_lookup_push_other(m, b.last(), k);
        }
    }
}

/// Appending lists: a name with a list in both `a` and `b` ends with `a`'s
/// list followed by `b`'s.
pub proof fn lemma_append_lists_concat<T>(a: Seq<(Seq<char>, Seq<T>)>, b: Seq<(Seq<char>, Seq<T>)>, k: Seq<char>)
    requires
        keys(b).no_duplicates(),
        lookup(a, k) is Some,
        lookup(b, k) is Some,
    ensures
        lookup(append_lists(a, b), k) == Some(lookup(a, k)->Some_0 + lookup(b, k)->Some_0),
    decreases b.len(),
{
    lemma_key_index_bounds(b, k);
    let d = b.drop_last();
    let e = b.last();
    lemma_lookup_drop_last(b, k);
    if e.0 == k {
        lemma_append_lists_absent(a, d, k);
        let m = append_lists(a, d);
        lemma_key_index_bounds(m, k);
        lemma_lookup_update_same(m, k, m[key_index(m, k)].1 + e.1);
    } else {
        lemma_append_lists_concat(a, d, k);
        let m = append_lists(a, d);
        let i = key_index(m, e.0);
        lemma_key_index_bounds(m, e.0);
        if 0 <= i {
            lemma_lookup_update_other(m, i, m[i].1 + e.1, k);
        } else {
            lemma_lookup_push_other(m, e, k);
        }
    }
}

/// An ordered table of values keyed by name.
#[derive(Debug)]
pub struct Table<V> {
    entries: Vec<(String, V)>,
}

impl<V> View for Table<V> {
    type V = Seq<(Seq<char>, V)>;

    closed spec fn view(&self) -> Seq<(Seq<char>, V)> {
        self.entries@.map_values(|e: (String, V)| (e.0@, e.1))
    }
}

impl<V> Table<V> {
    /// Names are unique.
    #[verifier::type_invariant]
    pub open spec fn unique_names(&self) -> bool {
        keys(self@).no_duplicates()
    }

    /// An empty table.
    pub fn new() -> (r: Self)
        ensures
            r@ == Seq::<(Seq<char>, V)>::empty(),
    {
        let r = Table { entries: Vec::new() };
        assert(r@ =~= Seq::<(Seq<char>, V)>::empty());
        assert(keys(r@) =~= Seq::<Seq<char>>::empty());
        r
    }

    /// The number of entries.
    pub fn len(&self) -> (r: usize)
        ensures
            r == self@.len(),
    {
        self.entries.len()
    }

    /// The name and value of the entry at index `i`.
    pub fn entry(&self, i: usize) -> (r: (&String, &V))
        requires
            i < self@.len(),
        ensures
            (r.0@, *r.1) == self@[i as int],
    {
        let e = &self.entries[i];
        (&e.0, &e.1)
    }

    /// The index of the first entry named `k`, if any.
    pub fn position(&self, k: &str) -> (r: Option<usize>)
        ensures
            r matches Some(i) ==> key_index(self@, k@) == i as int,
            r is None ==> key_index(self@, k@) == -1,
    {
        let key = k.to_owned();
        let mut i: usize = 0;
        while i < self.entries.len()
            invariant
                key@ == k@,
                i <= self@.len(),
                self@.len() == self.entries@.len(),
                forall|j: int| 0 <= j < i ==> self@[j].0 != k@,
            decreases self.entries.len() - i,
        {
            if self.entries[i].0 == key {
                proof {
                    lemma_key_index_at(self@, k@, i as int);
                }
                return Some(i);
            }
            i = i + 1;
        }
        proof {
            lemma_key_index_absent(self@, k@);
        }
        None
    }

    /// The value stored under `k`, if any.
    pub fn get(&self, k: &str) -> (r: Option<&V>)
        ensures
            r matches Some(v) ==> lookup(self@, k@) == Some(*v),
            r is None ==> lookup(self@, k@) is None,
    {
        match self.position(k) {
            Some(i) => {
                proof {
                    lemma_key_index_bounds(self@, k@);
                }
                Some(&self.entries[i].1)
            },
            None => None,
        }
    }

    /// The entries, in order, taking the table apart.
    pub fn into_entries(self) -> (r: Vec<(String, V)>)
        ensures
            entries_view(r@) == self@,
            keys(self@).no_duplicates(),
    {
        proof {
            use_type_invariant(&self);
        }
        self.entries
    }

    /// Adds each entry of `other`, in order, whose name is not present yet.
    pub fn absorb_missing(&mut self, other: Table<V>)
        ensures
            final(self)@ == keep_first(old(self)@, other@),
    {
        let ghost b = other@;
        let v = other.into_entries();
        for e in it: v
            invariant
                entries_view(it.seq()) == b,
                self@ == keep_first(old(self)@, b.subrange(0, it.index() as int)),
        {
            let ghost n = it.index() as int;
            assert(b.subrange(0, n + 1).drop_last() =~= b.subrange(0, n));
            assert(b[n] == (e.0@, e.1));
            let (k, val) = e;
            match self.position(k.as_str()) {
                Some(_) => {},
                None => {
                    self.insert(k, val);
                },
            }
        }
        assert(b.subrange(0, b.len() as int) =~= b);
    }

    /// Stores each entry of `other`, in order, replacing values under names
    /// already present.
    pub fn absorb_all(&mut self, other: Table<V>)
        ensures
            final(self)@ == overwrite(old(self)@, other@),
    {
        let ghost b = other@;
        let v = other.into_entries();
        for e in it: v
            invariant
                entries_view(it.seq()) == b,
                self@ == overwrite(old(self)@, b.subrange(0, it.index() as int)),
        {
            let ghost n = it.index() as int;
            assert(b.subrange(0, n + 1).drop_last() =~= b.subrange(0, n));
            assert(b[n] == (e.0@, e.1));
            let (k, val) = e;
            self.insert(k, val);
        }
        assert(b.subrange(0, b.len() as int) =~= b);
    }

    /// Replaces the value at index `i` by `v`, keeping its name; returns the
    /// value it held.
    pub fn replace_value(&mut self, i: usize, v: V) -> (r: V)
        requires
            i < old(self)@.len(),
        ensures
            r == old(self)@[i as int].1,
            final(self)@ == old(self)@.update(i as int, (old(self)@[i as int].0, v)),
    {
        proof {
            use_type_invariant(&*self);
        }
        let mut whole = Table::new();
        core::mem::swap(self, &mut whole);
        let ghost before = whole@;
        proof {
            use_type_invariant(&whole);
        }
        let Table { mut entries } = whole;
        let (name, previous) = entries.remove(i);
        entries.insert(i, (name, v));
        let ghost after = entries@.map_values(|e: (String, V)| (e.0@, e.1));
        assert(after =~= before.update(i as int, (before[i as int].0, v)));
        assert(keys(after) =~= keys(before));
        let rebuilt = Table { entries };
        assert(rebuilt@ =~= before.update(i as int, (before[i as int].0, v)));
        assert(keys(rebuilt@) =~= keys(before));
        *self = rebuilt;
        previous
    }

    /// Stores `v` under `k`: replaces the value of an existing entry named `k`
    /// in place, or appends a new entry.
    pub fn insert(&mut self, k: String, v: V)
        ensures
            final(self)@ == upsert(old(self)@, k@, v),
    {
        proof {
            use_type_invariant(&*self);
            lemma_key_index_bounds(self@, k@);
        }
        match self.position(k.as_str()) {
            Some(i) => {
                let _ = self.replace_value(i, v);
                assert(self@ =~= upsert(old(self)@, k@, v));
            },
            None => {
                let mut whole = Table::new();
        core::mem::swap(self, &mut whole);
                let ghost before = whole@;
                proof {
                    use_type_invariant(&whole);
                    lemma_key_index_bounds(before, k@);
                }
                let Table { mut entries } = whole;
                entries.push((k, v));
                let ghost after = entries@.map_values(|e: (String, V)| (e.0@, e.1));
                assert(after =~= before.push((k@, v)));
                assert(keys(after) =~= keys(before).push(k@));
                let rebuilt = Table { entries };
                assert(rebuilt@ =~= before.push((k@, v)));
                assert(keys(rebuilt@) =~= keys(before).push(k@));
                *self = rebuilt;
                assert(self@ =~= upsert(old(self)@, k@, v));
            },
        }
    }
}

impl<T> Table<Vec<T>> {
    /// Appends each list of `other`, in order, to the list under the same
    /// name, or adds it as a new entry.
    pub fn absorb_lists(&mut self, other: Table<Vec<T>>)
        ensures
            list_view(final(self)@) == append_lists(list_view(old(self)@), list_view(other@)),
    {
        let ghost b = list_view(other@);
        let v = other.into_entries();
        for e in it: v
            invariant
                list_view(entries_view(it.seq())) == b,
                list_view(self@) == append_lists(list_view(old(self)@), b.subrange(0, it.index() as int)),
        {
            let ghost n = it.index() as int;
            assert(b.subrange(0, n + 1).drop_last() =~= b.subrange(0, n));
            assert(b[n] == (e.0@, e.1@));
            let (k, mut list) = e;
            let ghost m = list_view(self@);
            match self.position(k.as_str()) {
                Some(i) => {
                    proof {
                        lemma_key_index_bounds(self@, k@);
                        lemma_key_index_list_view(self@, k@);
                    }
                    let mut current = self.replace_value(i, Vec::new());
                    current.append(&mut list);
                    let _ = self.replace_value(i, current);
                    assert(list_view(self@) =~= m.update(i as int, (m[i as int].0, m[i as int].1 + b[n].1)));
                },
                None => {
                    proof {
                        lemma_key_index_list_view(self@, k@);
                    }
                    self.insert(k, list);
                    assert(list_view(self@) =~= m.push(b[n]));
                },
            }
        }
        assert(b.subrange(0, b.len() as int) =~= b);
    }
}

/// Viewing each list as its sequence keeps the names, so lookups by name
/// land on the same index.
pub proof fn lemma_key_index_list_view<T>(s: Seq<(Seq<char>, Vec<T>)>, k: Seq<char>)
    ensures
        key_index(list_view(s), k) == key_index(s, k),
{
    lemma_key_index_bounds(s, k);
    let t = list_view(s);
    let i = key_index(s, k);
    if 0 <= i {
        lemma_key_index_at(t, k, i);
    } else {
        lemma_key_index_absent(t, k);
    }
}

} // verus!
