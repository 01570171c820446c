use vstd::prelude::*;
use crate::StoreError;
use crate::generator::{b62_chars, unique_id};

verus! {

/// The mathematical value of one stored record.
pub ghost struct RecModel {
    pub id: int,
    pub alias: Seq<char>,
    pub url: Seq<char>,
}

/// A stored mapping from a short alias to a destination URL. The id is
/// assigned by the store on insert and never changes; the alias is the
/// public lookup key.
#[derive(Debug)]
pub struct AliasRecord {
    pub id: u64,
    pub alias: String,
    pub url: String,
}

impl View for AliasRecord {
    type V = RecModel;

    open spec fn view(&self) -> RecModel {
        RecModel { id: self.id as int, alias: self.alias@, url: self.url@ }
    }
}

impl AliasRecord {
    /// An explicit copy; the clone carries the same id, alias and url.
    pub fn duplicate(&self) -> (r: AliasRecord)
        ensures
            r@ == self@,
    {
        AliasRecord { id: self.id, alias: self.alias.clone(), url: self.url.clone() }
    }
}

/// Whether some record in `s` carries the alias `a`.
pub open spec fn has_alias(s: Seq<RecModel>, a: Seq<char>) -> bool {
    exists|i: int| 0 <= i < s.len() && s[i].alias == a
}

/// Whether the record model `m` is one of the records in `s`.
pub open spec fn rec_in(s: Seq<RecModel>, m: RecModel) -> bool {
    exists|i: int| 0 <= i < s.len() && s[i] == m
}

/// The store's invariant over its contents: aliases are unique, ids are
/// unique.
pub open spec fn store_ok(s: Seq<RecModel>) -> bool {
    forall|i: int, j: int|
        0 <= i < j < s.len() ==> #[trigger] s[i].alias != #[trigger] s[j].alias && s[i].id
            != s[j].id
}

/// The store of alias records. It models the single `aliases` table: each
/// operation issues one statement against that table, and each method here
/// is that statement's meaning on the table's contents.
pub struct AliasStore {
    pub records: Vec<AliasRecord>,
    pub next_id: u64,
}

impl View for AliasStore {
    type V = Seq<RecModel>;

    open spec fn view(&self) -> Seq<RecModel> {
        self.records@.map_values(|r: AliasRecord| r@)
    }
}

impl AliasStore {
    /// Well-formedness: contents satisfy the store invariant and every
    /// assigned id lies below the next fresh one.
    pub open spec fn wf(&self) -> bool {
        &&& store_ok(self@)
        &&& forall|i: int| 0 <= i < self@.len() ==> #[trigger] self@[i].id < self.next_id as int
    }

    /// An empty store.
    pub fn new() -> (r: AliasStore)
        ensures
            r.wf(),
            r.id_space_open(),
            r@ == Seq::<RecModel>::empty(),
    {
        let r = AliasStore { records: Vec::new(), next_id: 0 };
        proof {
            assert(r@ =~= Seq::<RecModel>::empty());
        }
        r
    }

    /// The index of the record carrying `alias`, if any.
    fn find(&self, alias: &String) -> (r: Option<usize>)
        ensures
            match r {
                Some(i) => i < self@.len() && self@[i as int].alias == alias@,
                None => !has_alias(self@, alias@),
            },
    {
        let n: usize = self.records.len();
        let mut i: usize = 0;
        while i < n
            invariant
                n == self@.len(),
                i <= n,
                forall|j: int| 0 <= j < i ==> #[trigger] self@[j].alias != alias@,
            decreases n - i,
        {
            if self.records[i].alias == *alias {
                return Some(i);
            }
            i = i + 1;
        }
        None
    }

    /// Exact-match lookup by alias: the record carrying `alias`, or
    /// NotFoundError exactly when no record carries it.
    pub fn get(&self, alias: &String) -> (r: Result<AliasRecord, StoreError>)
        requires
            self.wf(),
        ensures
            match r {
                Ok(rec) => rec_in(self@, rec@) && rec@.alias == alias@,
                Err(e) => e == StoreError::NotFoundError && !has_alias(self@, alias@),
            },
            r is Ok <==> has_alias(self@, alias@),
    {
        match self.find(alias) {
            Some(i) => Ok(self.records[i].duplicate()),
            None => Err(StoreError::NotFoundError),
        }
    }

    /// All records, in store order.
    pub fn list(&self) -> (r: &Vec<AliasRecord>)
        ensures
            r@.map_values(|rec: AliasRecord| rec@) == self@,
    {
        &self.records
    }

    /// Insert a record with the given alias and url under a fresh id, or
    /// ConstraintError exactly when the alias is already taken (the store is
    /// then unchanged).
    pub fn create_with_alias(&mut self, alias: String, url: String) -> (r: Result<
        AliasRecord,
        StoreError,
    >)
        requires
            old(self).wf(),
            old(self).id_space_open(),
        ensures
            final(self).wf(),
            match r {
                Ok(rec) => {
                    &&& !has_alias(old(self)@, alias@)
                    &&& rec@.alias == alias@
                    &&& rec@.url == url@
                    &&& !rec_in(old(self)@, rec@)
                    &&& final(self)@ == old(self)@.push(rec@)
                },
                Err(e) => {
                    &&& e == StoreError::ConstraintError
                    &&& has_alias(old(self)@, alias@)
                    &&& final(self)@ == old(self)@
                    &&& final(self).next_id == old(self).next_id
                },
            },
    {
        match self.find(&alias) {
            Some(_) => Err(StoreError::ConstraintError),
            None => {
                let rec = AliasRecord { id: self.next_id, alias, url };
                let out = rec.duplicate();
                self.records.push(rec);
                self.next_id = self.next_id + 1;
                proof {
                    assert(self@ =~= old(self)@.push(out@));
                    assert forall|i: int, j: int|
                        0 <= i < j < self@.len() implies #[trigger] self@[i].alias
                        != #[trigger] self@[j].alias && self@[i].id != self@[j].id by {
                        if j == self@.len() - 1 {
                            assert(self@[i] == old(self)@[i]);
                            assert(old(self)@[i].id < old(self).next_id as int);
                        }
                    }
                    assert(store_ok(self@));
                    assert forall|i: int|
                        0 <= i < self@.len() implies #[trigger] self@[i].id
                        < self.next_id as int by {
                        if i < self@.len() - 1 {
                            assert(self@[i] == old(self)@[i]);
                        }
                    }
                    assert forall|i: int|
                        0 <= i < old(self)@.len() implies old(self)@[i] != out@ by {
                        assert(old(self)@[i].id < old(self).next_id as int);
                    }
                }
                Ok(out)
            },
        }
    }

    /// Whether a fresh id can still be assigned; only exhaustion of the
    /// machine-width id space closes it.
    pub open spec fn id_space_open(&self) -> bool {
        self.next_id < u64::MAX
    }

    /// Mint an alias from the current wall-clock time and insert a record
    /// for `url` under it. Fails with ClockError when the clock cannot be
    /// read and with ConstraintError when the minted alias is already taken;
    /// in both cases the store is unchanged.
    pub fn create(&mut self, url: String) -> (r: Result<AliasRecord, StoreError>)
        requires
            old(self).wf(),
            old(self).id_space_open(),
        ensures
            final(self).wf(),
            match r {
                Ok(rec) => {
                    &&& rec@.url == url@
                    &&& (exists|m: nat| rec@.alias == b62_chars(m))
                    &&& !has_alias(old(self)@, rec@.alias)
                    &&& final(self)@ == old(self)@.push(rec@)
                },
                Err(e) => {
                    &&& final(self)@ == old(self)@
                    &&& final(self).next_id == old(self).next_id
                    &&& (e == StoreError::ClockError || e == StoreError::ConstraintError)
                },
            },
    {
        match unique_id() {
            Some(alias) => self.create_with_alias(alias, url),
            None => Err(StoreError::ClockError),
        }
    }

    /// Remove and return the record carrying `alias`, or NotFoundError
    /// exactly when no record carries it (the store is then unchanged).
    pub fn delete(&mut self, alias: &String) -> (r: Result<AliasRecord, StoreError>)
        requires
            old(self).wf(),
        ensures
            final(self).wf(),
            final(self).id_space_open() == old(self).id_space_open(),
            match r {
                Ok(rec) => {
                    &&& rec_in(old(self)@, rec@)
                    &&& rec@.alias == alias@
                    &&& (exists|i: int|
                        0 <= i < old(self)@.len() && old(self)@[i] == rec@ && final(self)@ == old(
                            self,
                        )@.remove(i))
                    &&& !has_alias(final(self)@, alias@)
                },
                Err(e) => {
                    &&& e == StoreError::NotFoundError
                    &&& !has_alias(old(self)@, alias@)
                    &&& final(self)@ == old(self)@
                },
            },
    {
        match self.find(alias) {
            Some(i) => {
                let rec = self.records.remove(i);
                proof {
                    assert(self@ =~= old(self)@.remove(i as int));
                    assert forall|k: int|
                        0 <= k < self@.len() implies #[trigger] self@[k].alias != alias@ by {
                        if k < i {
                            assert(self@[k] == old(self)@[k]);
                        } else {
                            assert(self@[k] == old(self)@[k + 1]);
                        }
                    }
                    assert forall|p: int, q: int|
                        0 <= p < q < self@.len() implies #[trigger] self@[p].alias
                        != #[trigger] self@[q].alias && self@[p].id != self@[q].id by {
                        let p0: int = if p < i { p } else { p + 1 };
                        let q0: int = if q < i { q } else { q + 1 };
                        assert(self@[p] == old(self)@[p0]);
                        assert(self@[q] == old(self)@[q0]);
                        assert(old(self)@[p0].alias != old(self)@[q0].alias);
                    }
                    assert(store_ok(self@));
                    assert forall|k: int|
                        0 <= k < self@.len() implies #[trigger] self@[k].id
                        < self.next_id as int by {
                        let k0: int = if k < i { k } else { k + 1 };
                        assert(self@[k] == old(self)@[k0]);
                        assert(old(self)@[k0].id < old(self).next_id as int);
                    }
                }
                Ok(rec)
            },
            None => Err(StoreError::NotFoundError),
        }
    }

    /// Remove every record and return the first of them, or NotFoundError
    /// exactly when the store was already empty.
    pub fn delete_all(&mut self) -> (r: Result<AliasRecord, StoreError>)
        requires
            old(self).wf(),
        ensures
            final(self).wf(),
            final(self).id_space_open() == old(self).id_space_open(),
            match r {
                Ok(rec) => {
                    &&& old(self)@.len() > 0
                    &&& rec@ == old(self)@[0]
                    &&& final(self)@ == Seq::<RecModel>::empty()
                },
                Err(e) => {
                    &&& e == StoreError::NotFoundError
                    &&& old(self)@.len() == 0
                    &&& final(self)@ == old(self)@
                },
            },
    {
        if self.records.len() == 0 {
            proof {
                assert(self@ =~= old(self)@);
            }
            Err(StoreError::NotFoundError)
        } else {
            let rec = self.records.remove(0);
            self.records.clear();
            proof {
                assert(self@ =~= Seq::<RecModel>::empty());
            }
            Ok(rec)
        }
    }
}

/// Two reads of the same alias from the same well-formed contents see the
/// same record: aliases are unique, so the record a successful `get` returns
/// is determined by the contents and the alias alone.
pub proof fn lemma_get_deterministic(s: Seq<RecModel>, a: Seq<char>, r1: RecModel, r2: RecModel)
    requires
        store_ok(s),
        rec_in(s, r1),
        r1.alias == a,
        rec_in(s, r2),
        r2.alias == a,
    ensures
        r1 == r2,
{
    let i = choose|i: int| 0 <= i < s.len() && s[i] == r1;
    let j = choose|j: int| 0 <= j < s.len() && s[j] == r2;
    if i < j {
        assert(s[i].alias != s[j].alias);
    } else if j < i {
        assert(s[j].alias != s[i].alias);
    }
}

/// Deleting an alias and then reading it fails: removing the record that
/// carries `a` from well-formed contents leaves no record carrying `a`, so
/// a following `get` of `a` returns NotFoundError.
pub proof fn lemma_delete_then_get_fails(s: Seq<RecModel>, a: Seq<char>, i: int)
    requires
        store_ok(s),
        0 <= i < s.len(),
        s[i].alias == a,
    ensures
        !has_alias(s.remove(i), a),
{
    let t = s.remove(i);
    assert forall|k: int| 0 <= k < t.len() implies #[trigger] t[k].alias != a by {
        let k0: int = if k < i { k } else { k + 1 };
        assert(t[k] == s[k0]);
        if k0 < i {
            assert(s[k0].alias != s[i].alias);
        } else {
            assert(s[i].alias != s[k0].alias);
        }
    }
}

/// Creating a record and then reading its alias yields that very record:
/// its url is the one given to create.
pub proof fn lemma_create_then_get(s: Seq<RecModel>, rec: RecModel, found: RecModel)
    requires
        store_ok(s.push(rec)),
        rec_in(s.push(rec), found),
        found.alias == rec.alias,
    ensures
        found == rec,
{
    assert(s.push(rec)[s.len() as int] == rec);
    lemma_get_deterministic(s.push(rec), rec.alias, found, rec);
}

} // verus!
