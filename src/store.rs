//! A key/value store of records with string identities, kept in insertion order.
use vstd::prelude::*;
use crate::model::strings_view;

verus! {

#[derive(Debug, PartialEq, Eq, Structural, Clone, Copy)]
pub enum KeyValueStoreError {
    /// No record has the identity.
    NotFound,
    /// No fresh identity is left to generate.
    Exhausted,
}

/// The identity under which a record was stored.
pub struct UpsertOk {
    pub id: String,
}

/// Records of type `T`, each under a distinct identity. Records keep the order in which their
/// identities were first stored.
pub struct KeyValueStore<T> {
    keys: Vec<String>,
    values: Vec<T>,
    next_id: u64,
}

/// Index of the first occurrence of `k` in `s`.
pub open spec fn strings_index(s: Seq<Seq<char>>, k: Seq<char>) -> Option<int>
    decreases s.len(),
{
    if s.len() == 0 {
        None
    } else {
        match strings_index(s.drop_last(), k) {
            Some(i) => Some(i),
            None => if s.last() == k {
                Some(s.len() - 1)
            } else {
                None
            },
        }
    }
}

/// `strings_index` gives the first occurrence.
pub proof fn lemma_strings_index(s: Seq<Seq<char>>, k: Seq<char>)
    ensures
        match strings_index(s, k) {
            Some(j) => 0 <= j < s.len() && s[j] == k && forall|i: int| 0 <= i < j ==> s[i] != k,
            None => forall|j: int| 0 <= j < s.len() ==> s[j] != k,
        },
    decreases s.len(),
{
    if s.len() > 0 {
        lemma_strings_index(s.drop_last(), k);
        assert forall|j: int| 0 <= j < s.len() - 1 implies s.drop_last()[j] == s[j] by {}
    }
}

/// Position of the first occurrence of `k` in `v`.
pub fn find_string(v: &Vec<String>, k: &String) -> (r: Option<usize>)
    ensures
        match strings_index(strings_view(v@), k@) {
            Some(i) => r matches Some(j) && j as int == i,
            None => r is None,
        },
{
    let mut r: Option<usize> = None;
    let mut i: usize = 0;
    while i < v.len()
        invariant
            i <= v.len(),
            match strings_index(strings_view(v@).take(i as int), k@) {
                Some(j) => r matches Some(x) && x as int == j && j < i,
                None => r is None,
            },
        decreases v.len() - i,
    {
        assert(strings_view(v@).take(i + 1).drop_last() =~= strings_view(v@).take(i as int));
        if r.is_none() && v[i] == *k {
            r = Some(i);
        }
        i = i + 1;
    }
    assert(strings_view(v@).take(i as int) =~= strings_view(v@));
    r
}

pub open spec fn digit_char(d: nat) -> char {
    if d == 0 { '0' } else if d == 1 { '1' } else if d == 2 { '2' } else if d == 3 { '3' }
    else if d == 4 { '4' } else if d == 5 { '5' } else if d == 6 { '6' } else if d == 7 { '7' }
    else if d == 8 { '8' } else { '9' }
}

/// The decimal notation of `n`.
pub open spec fn decimal(n: nat) -> Seq<char>
    decreases n,
{
    if n < 10 {
        seq![digit_char(n)]
    } else {
        decimal(n / 10).push(digit_char(n % 10))
    }
}

fn digit_str(d: u64) -> (r: &'static str)
    requires
        d < 10,
    ensures
        r@ == seq![digit_char(d as nat)],
{
    proof {
        reveal_strlit("0");
        reveal_strlit("1");
        reveal_strlit("2");
        reveal_strlit("3");
        reveal_strlit("4");
        reveal_strlit("5");
        reveal_strlit("6");
        reveal_strlit("7");
        reveal_strlit("8");
        reveal_strlit("9");
    }
    let r = if d == 0 { "0" } else if d == 1 { "1" } else if d == 2 { "2" } else if d == 3 { "3" }
        else if d == 4 { "4" } else if d == 5 { "5" } else if d == 6 { "6" } else if d == 7 { "7" }
        else if d == 8 { "8" } else { "9" };
    assert(r@ =~= seq![digit_char(d as nat)]);
    r
}

/// The decimal notation of `n`.
pub fn decimal_string(n: u64) -> (r: String)
    ensures
        r@ == decimal(n as nat),
    decreases n,
{
    if n < 10 {
        String::from_str(digit_str(n))
    } else {
        let s = decimal_string(n / 10);
        let r = s.concat(digit_str(n % 10));
        assert(r@ =~= decimal(n as nat));
        r
    }
}

/// The identities after storing a record under `k`.
pub open spec fn put_keys(ks: Seq<Seq<char>>, k: Seq<char>) -> Seq<Seq<char>> {
    match strings_index(ks, k) {
        Some(_) => ks,
        None => ks.push(k),
    }
}

/// The records after storing `v` under `k`.
pub open spec fn put_values<T>(ks: Seq<Seq<char>>, vs: Seq<T>, k: Seq<char>, v: T) -> Seq<T> {
    match strings_index(ks, k) {
        Some(i) => vs.update(i, v),
        None => vs.push(v),
    }
}

/// Storing the same record under the same identity a second time changes nothing.
pub proof fn lemma_put_idempotent<T>(ks: Seq<Seq<char>>, vs: Seq<T>, k: Seq<char>, v: T)
    requires
        ks.len() == vs.len(),
    ensures
        put_keys(put_keys(ks, k), k) == put_keys(ks, k),
        put_values(put_keys(ks, k), put_values(ks, vs, k, v), k, v) == put_values(ks, vs, k, v),
{
    lemma_strings_index(ks, k);
    lemma_strings_index(put_keys(ks, k), k);
    match strings_index(ks, k) {
        Some(i) => {
            assert(vs.update(i, v).update(i, v) =~= vs.update(i, v));
        },
        None => {
            assert(strings_index(ks.push(k), k) == Some(ks.len() as int));
            assert(vs.push(v).update(ks.len() as int, v) =~= vs.push(v));
        },
    }
}

impl<T> KeyValueStore<T> {
    pub closed spec fn keys(&self) -> Seq<Seq<char>> {
        strings_view(self.keys@)
    }

    pub closed spec fn values(&self) -> Seq<T> {
        self.values@
    }

    /// Identities are distinct and each has one record.
    pub closed spec fn wf(&self) -> bool {
        &&& self.keys@.len() == self.values@.len()
        &&& forall|i: int, j: int| 0 <= i < j < self.keys@.len() ==> self.keys@[i]@ != self.keys@[j]@
    }

    /// Where the search for a generated identity starts: the decimal notation of this number is
    /// tried first, then of each number above it.
    pub closed spec fn counter(&self) -> nat {
        self.next_id as nat
    }

    /// A well-formed store has one record per identity, and distinct identities.
    pub proof fn lemma_wf(&self)
        requires
            self.wf(),
        ensures
            self.keys().len() == self.values().len(),
            forall|i: int, j: int| 0 <= i < j < self.keys().len() ==> self.keys()[i] != self.keys()[j],
    {
    }

    /// The record stored under `k`, if any.
    pub open spec fn get(&self, k: Seq<char>) -> Option<T> {
        match strings_index(self.keys(), k) {
            Some(i) => Some(self.values()[i]),
            None => None,
        }
    }

    /// `v` holds the records of `s`, in order.
    pub open spec fn refers_to(v: Seq<&T>, s: Seq<T>) -> bool {
        &&& v.len() == s.len()
        &&& forall|j: int| 0 <= j < v.len() ==> *v[j] == s[j]
    }

    pub fn new() -> (r: Self)
        ensures
            r.wf(),
            r.keys().len() == 0,
            r.values().len() == 0,
    {
        KeyValueStore { keys: Vec::new(), values: Vec::new(), next_id: 0 }
    }

    pub fn len(&self) -> (r: usize)
        requires
            self.wf(),
        ensures
            r == self.values().len(),
    {
        self.values.len()
    }

    /// All records, in order.
    pub fn all(&self) -> (r: &Vec<T>)
        ensures
            r@ == self.values(),
    {
        &self.values
    }

    /// Position of the record stored under `k`.
    pub fn position(&self, k: &str) -> (r: Option<usize>)
        requires
            self.wf(),
        ensures
            match strings_index(self.keys(), k@) {
                Some(i) => r matches Some(j) && j as int == i && 0 <= i < self.values().len(),
                None => r is None,
            },
    {
        proof {
            lemma_strings_index(self.keys(), k@);
        }
        find_string(&self.keys, &k.to_owned())
    }

    /// With `None`, every record in order; with `Some(k)`, the record stored under `k`, or
    /// nothing where there is none.
    pub fn read(&self, id: Option<&str>) -> (r: Result<Vec<&T>, KeyValueStoreError>)
        requires
            self.wf(),
        ensures
            r matches Ok(v) && match id {
                None => Self::refers_to(v@, self.values()),
                Some(k) => match self.get(k@) {
                    Some(x) => Self::refers_to(v@, seq![x]),
                    None => v@.len() == 0,
                },
            },
    {
        match id {
            None => {
                let mut v: Vec<&T> = Vec::new();
                let mut i: usize = 0;
                while i < self.values.len()
                    invariant
                        i <= self.values@.len(),
                        Self::refers_to(v@, self.values@.take(i as int)),
                    decreases self.values@.len() - i,
                {
                    let x: &T = &self.values[i];
                    assert(*x == self.values@[i as int]);
                    v.push(x);
                    i = i + 1;
                }
                assert(self.values@.take(i as int) =~= self.values@);
                assert forall|j: int| 0 <= j < v@.len() implies *v@[j] == self.values()[j] by {
                    assert(self.values@.take(i as int)[j] == self.values@[j]);
                }
                assert(v@.len() == self.values().len());
                assert(Self::refers_to(v@, self.values()));
                Ok(v)
            },
            Some(k) => match self.position(k) {
                Some(i) => {
                    let mut v: Vec<&T> = Vec::new();
                    v.push(&self.values[i]);
                    Ok(v)
                },
                None => Ok(Vec::new()),
            },
        }
    }

    /// Stores `value` under `k`: replaces the record where one is stored under `k`, else adds
    /// it at the end.
    pub fn put(&mut self, k: String, value: T)
        requires
            old(self).wf(),
        ensures
            final(self).wf(),
            final(self).keys() == put_keys(old(self).keys(), k@),
            final(self).values() == put_values(old(self).keys(), old(self).values(), k@, value),
            final(self).get(k@) == Some(value),
            forall|k2: Seq<char>| k2 != k@ ==> #[trigger] final(self).get(k2) == old(self).get(k2),
    {
        proof {
            lemma_strings_index(self.keys(), k@);
        }
        let ghost ks = self.keys();
        match find_string(&self.keys, &k) {
            Some(i) => {
                self.values.set(i, value);
                proof {
                    assert forall|k2: Seq<char>| k2 != k@ implies #[trigger] self.get(k2) == old(self).get(k2) by {
                        lemma_strings_index(ks, k2);
                    }
                }
            },
            None => {
                let ghost kv = k@;
                assert forall|j: int| 0 <= j < self.keys@.len() implies self.keys@[j]@ != kv by {
                    assert(self.keys()[j] == self.keys@[j]@);
                }
                self.keys.push(k);
                self.values.push(value);
                assert(self.keys() =~= old(self).keys().push(kv));
                proof {
                    lemma_strings_index(self.keys(), kv);
                    assert forall|k2: Seq<char>| k2 != kv implies #[trigger] self.get(k2) == old(self).get(k2) by {
                        lemma_strings_index(ks, k2);
                        lemma_strings_index(self.keys(), k2);
                        assert(forall|j: int| 0 <= j < ks.len() ==> self.keys()[j] == ks[j]);
                    }
                }
            },
        }
    }

    /// With `Some(k)`, stores `value` under `k` (see `put`). With `None`, stores it under a
    /// generated identity that no record has, the decimal notation of a counter; this fails with
    /// `Exhausted` only where the notation of every number from the counter up to `u64::MAX` is
    /// taken.
    pub fn upsert(&mut self, id: Option<&str>, value: T) -> (r: Result<UpsertOk, KeyValueStoreError>)
        requires
            old(self).wf(),
        ensures
            final(self).wf(),
            match id {
                Some(k) => r matches Ok(ok) && ok.id@ == k@ && match strings_index(old(self).keys(), k@) {
                    Some(i) => final(self).keys() == old(self).keys()
                        && final(self).values() == old(self).values().update(i, value),
                    None => final(self).keys() == old(self).keys().push(k@)
                        && final(self).values() == old(self).values().push(value),
                },
                None => match r {
                    Ok(ok) => !old(self).keys().contains(ok.id@)
                        && final(self).keys() == old(self).keys().push(ok.id@)
                        && final(self).values() == old(self).values().push(value),
                    Err(e) => e == KeyValueStoreError::Exhausted
                        && forall|n: nat| old(self).counter() <= n <= u64::MAX
                            ==> #[trigger] old(self).keys().contains(decimal(n))
                        && final(self).keys() == old(self).keys()
                        && final(self).values() == old(self).values(),
                },
            },
    {
        match id {
            Some(k) => {
                let key = k.to_owned();
                self.put(key, value);
                Ok(UpsertOk { id: k.to_owned() })
            },
            None => {
                loop
                    invariant
                        id is None,
                        self.wf(),
                        self.keys() == old(self).keys(),
                        self.values() == old(self).values(),
                        old(self).counter() <= self.next_id,
                        forall|n: nat| old(self).counter() <= n < self.next_id
                            ==> #[trigger] old(self).keys().contains(decimal(n)),
                    decreases u64::MAX - self.next_id,
                {
                    let candidate = decimal_string(self.next_id);
                    match self.position(candidate.as_str()) {
                        None => {
                            proof {
                                lemma_strings_index(self.keys(), candidate@);
                            }
                            self.put(candidate.clone(), value);
                            return Ok(UpsertOk { id: candidate });
                        },
                        Some(p) => {
                            proof {
                                lemma_strings_index(self.keys(), candidate@);
                                assert(self.keys()[p as int] == decimal(self.next_id as nat));
                            }
                            if self.next_id == u64::MAX {
                                return Err(KeyValueStoreError::Exhausted);
                            }
                            self.next_id = self.next_id + 1;
                        },
                    }
                }
            },
        }
    }

    /// With `None`, removes every record. With `Some(k)`, removes the record stored under `k`,
    /// or fails with `NotFound` where there is none.
    pub fn delete(&mut self, id: Option<&str>) -> (r: Result<(), KeyValueStoreError>)
        requires
            old(self).wf(),
        ensures
            final(self).wf(),
            id is None ==> r is Ok && final(self).keys().len() == 0 && final(self).values().len() == 0,
            id matches Some(k) ==> match strings_index(old(self).keys(), k@) {
                Some(i) => r is Ok && final(self).keys() == old(self).keys().remove(i)
                    && final(self).values() == old(self).values().remove(i),
                None => r == Err::<(), KeyValueStoreError>(KeyValueStoreError::NotFound)
                    && final(self).keys() == old(self).keys()
                    && final(self).values() == old(self).values(),
            },
    {
        match id {
            None => {
                self.keys.clear();
                self.values.clear();
                assert(self.keys@.len() == 0);
                assert(self.keys() =~= seq![]);
                assert(self.values() =~= seq![]);
                assert(self.wf());
                Ok(())
            },
            Some(k) => match self.position(k) {
                Some(i) => {
                    self.keys.remove(i);
                    self.values.remove(i);
                    assert(self.keys() =~= old(self).keys().remove(i as int));
                    assert(self.values() =~= old(self).values().remove(i as int));
                    Ok(())
                },
                None => Err(KeyValueStoreError::NotFound),
            },
        }
    }
}

} // verus!
