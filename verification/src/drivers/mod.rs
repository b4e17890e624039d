//! The backend-agnostic capability contract and the shared result types.

use vstd::prelude::*;

pub mod mysql;

verus! {

/// The error taxonomy of the introspection layer.
///
/// Every operation surfaces its failure to the immediate caller: a pool that
/// cannot yield a usable connection is `Connection`, a statement the backend
/// rejects is `Query`, a fetched value that cannot be decoded to text is
/// `Conversion`, and a contract member the current backend has not realized
/// is `NotImplemented`.
#[derive(Debug)]
pub enum DriverError {
    /// The pool could not produce a usable connection.
    Connection(String),
    /// The backend rejected the composed statement.
    Query(String),
    /// A fetched value could not be decoded to text.
    Conversion,
    /// The operation is declared by the contract but not realized by the
    /// current backend.
    NotImplemented,
}

/// Declared result element of the constraint listing; carries no attributes
/// yet, so the contract stays stable while backends add support.
pub struct ConstraintInfo;

/// Declared result element of the index listing; carries no attributes yet.
pub struct IndexInfo;

/// Declared result element of the foreign-key listing; carries no attributes
/// yet.
pub struct ForeignKeyInfo;

/// One described column: name, declared type text, nullability, key role,
/// default value and extra attributes. The key role and the extra text are
/// absent — never an empty string — when the backend reports them empty.
#[derive(Debug, PartialEq, Eq)]
pub struct ColumnInfo {
    pub name: String,
    pub declared_type: String,
    pub nullable: bool,
    pub key: Option<String>,
    pub default: Option<String>,
    pub extra: Option<String>,
}

/// The capability contract every backend satisfies: seven enumeration and
/// listing operations against a live connection resource. Implementations
/// live with their connection machinery, outside the verified core; the
/// composition and normalization they rely on is the verified logic of this
/// crate.
pub trait Driver {
    /// Lists backend-level databases, excluding the backend's built-in system
    /// schemas when `ignore_default_tables` is set.
    fn list_databases(&self, ignore_default_tables: bool) -> Result<Vec<String>, DriverError>;

    /// Lists the tables of one database.
    fn list_tables(&self, database: String) -> Result<Vec<String>, DriverError>;

    /// Describes every column of a table, in backend-reported order.
    fn list_columns(&self, database: String, table: String) -> Result<
        Vec<ColumnInfo>,
        DriverError,
    >;

    /// Fetches one page of rows, every cell normalized to its canonical text.
    fn list_records(
        &self,
        database: String,
        table: String,
        filter: Option<String>,
        sort: Option<String>,
        offset: usize,
        limit: usize,
    ) -> Result<Vec<RowValues>, DriverError>;

    /// Lists the constraints of a table; backends without support return
    /// `DriverError::NotImplemented`.
    fn list_constraints(&self, database: String, table: String) -> Result<
        Vec<ConstraintInfo>,
        DriverError,
    >;

    /// Lists the foreign keys of a table; backends without support return
    /// `DriverError::NotImplemented`.
    fn list_foreign_keys(&self, database: String, table: String) -> Result<
        Vec<ForeignKeyInfo>,
        DriverError,
    >;

    /// Lists the indexes of a table; backends without support return
    /// `DriverError::NotImplemented`.
    fn list_indexes(&self, database: String, table: String) -> Result<
        Vec<IndexInfo>,
        DriverError,
    >;
}

/// Whether no two entries carry the same key.
pub open spec fn keys_unique(entries: Seq<(String, String)>) -> bool {
    forall|i: int, j: int| 0 <= i < j < entries.len() ==> entries[i].0@ != entries[j].0@
}

/// Whether some entry carries the key `k`.
pub open spec fn entries_have_key(entries: Seq<(String, String)>, k: Seq<char>) -> bool {
    exists|i: int| 0 <= i < entries.len() && entries[i].0@ == k
}

/// The position of an entry carrying the key `k`.
pub open spec fn entry_index(entries: Seq<(String, String)>, k: Seq<char>) -> int {
    choose|i: int| 0 <= i < entries.len() && entries[i].0@ == k
}

/// The key/value mapping a sequence of entries denotes.
pub open spec fn map_of_entries(entries: Seq<(String, String)>) -> Map<Seq<char>, Seq<char>> {
    Map::new(
        |k: Seq<char>| entries_have_key(entries, k),
        |k: Seq<char>| entries[entry_index(entries, k)].1@,
    )
}

/// One fetched record: a mapping from column name to canonical string value,
/// insensitive to the order in which the columns were inserted. Keys are
/// unique; inserting an existing key replaces its value.
#[derive(Debug)]
pub struct RowValues {
    entries: Vec<(String, String)>,
}

impl RowValues {
    /// A row is its key/value mapping; the order of the entries is invisible.
    pub closed spec fn view(&self) -> Map<Seq<char>, Seq<char>> {
        map_of_entries(self.entries@)
    }

    /// No two entries carry the same key.
    #[verifier::type_invariant]
    spec fn wf(&self) -> bool {
        keys_unique(self.entries@)
    }

    /// An empty row.
    pub fn new() -> (row: RowValues)
        ensures
            row@ == Map::<Seq<char>, Seq<char>>::empty(),
    {
        let row = RowValues { entries: Vec::new() };
        proof {
            assert(row@ =~= Map::<Seq<char>, Seq<char>>::empty());
        }
        row
    }

    /// Binds `key` to `value`, replacing any value the key carried before.
    pub fn insert(&mut self, key: String, value: String)
        ensures
            final(self)@ == old(self)@.insert(key@, value@),
    {
        proof {
            use_type_invariant(&*self);
        }
        let mut entries: Vec<(String, String)> = Vec::new();
        std::mem::swap(&mut entries, &mut self.entries);
        let ghost prior = entries@;
        match find_key(&entries, &key) {
            Some(i) => {
                entries.set(i, (key, value));
                proof {
                    lemma_update_is_insert(prior, entries@, i as int);
                }
            },
            None => {
                entries.push((key, value));
                proof {
                    lemma_push_is_insert(prior, entries@);
                }
            },
        }
        self.entries = entries;
    }

    /// The value bound to `key`, if any.
    pub fn get(&self, key: &str) -> (r: Option<&String>)
        ensures
            match r {
                Some(v) => self@.dom().contains(key@) && v@ == self@[key@],
                None => !self@.dom().contains(key@),
            },
    {
        proof {
            use_type_invariant(&*self);
        }
        let owned = String::from_str(key);
        match find_key(&self.entries, &owned) {
            Some(i) => Some(&self.entries[i].1),
            None => None,
        }
    }

    /// How many columns the row holds.
    pub fn len(&self) -> (n: usize)
        ensures
            n == self@.dom().len(),
    {
        proof {
            use_type_invariant(&*self);
            lemma_key_count(self.entries@);
            assert(self@.dom() =~= Set::new(|k: Seq<char>| entries_have_key(self.entries@, k)));
        }
        self.entries.len()
    }
}

impl Default for RowValues {
    /// The empty row.
    fn default() -> (row: RowValues)
        ensures
            row@ == Map::<Seq<char>, Seq<char>>::empty(),
    {
        RowValues::new()
    }
}

impl vstd::std_specs::cmp::PartialEqSpecImpl for RowValues {
    open spec fn obeys_eq_spec() -> bool {
        true
    }

    open spec fn eq_spec(&self, other: &RowValues) -> bool {
        self@ == other@
    }
}

impl PartialEq for RowValues {
    /// Two rows are equal exactly when their key/value mappings are
    /// identical; the order of the entries is irrelevant.
    fn eq(&self, other: &RowValues) -> (r: bool) {
        proof {
            use_type_invariant(&*self);
            use_type_invariant(&*other);
        }
        let forward = entries_covered(&self.entries, &other.entries);
        let backward = entries_covered(&other.entries, &self.entries);
        proof {
            if forward && backward {
                lemma_mutual_cover_equal(self.entries@, other.entries@);
                assert(self@ == other@);
            } else if !forward {
                lemma_cover_missing_unequal(self.entries@, other.entries@);
                assert(self@ != other@);
            } else {
                lemma_cover_missing_unequal(other.entries@, self.entries@);
                assert(self@ != other@);
            }
        }
        forward && backward
    }
}

/// Whether every entry of `a` appears in `b`: same key, same value.
pub open spec fn entries_cover(a: Seq<(String, String)>, b: Seq<(String, String)>) -> bool {
    forall|i: int| 0 <= i < a.len() ==> entries_have_key(b, (#[trigger] a[i]).0@)
        && b[entry_index(b, a[i].0@)].1@ == a[i].1@
}

/// Checks that every entry of `a` appears in `b` with the same value.
fn entries_covered(a: &Vec<(String, String)>, b: &Vec<(String, String)>) -> (r: bool)
    requires
        keys_unique(b@),
    ensures
        r == entries_cover(a@, b@),
{
    let n = a.len();
    let mut i: usize = 0;
    while i < n
        invariant
            n == a@.len(),
            i <= n,
            keys_unique(b@),
            forall|j: int| 0 <= j < i ==> entries_have_key(b@, (#[trigger] a@[j]).0@)
                && b@[entry_index(b@, a@[j].0@)].1@ == a@[j].1@,
        decreases n - i,
    {
        match find_key(b, &a[i].0) {
            Some(j) => {
                proof {
                    let w = entry_index(b@, a@[i as int].0@);
                    assert(b@[w].0@ == a@[i as int].0@);
                    if w != j {
                        assert(b@[w].0@ == b@[j as int].0@);
                        assert(false);
                    }
                }
                if !(b[j].1 == a[i].1) {
                    return false;
                }
            },
            None => {
                return false;
            },
        }
        i = i + 1;
    }
    true
}

/// Mutual cover of two unique-keyed entry lists makes their mappings equal.
proof fn lemma_mutual_cover_equal(a: Seq<(String, String)>, b: Seq<(String, String)>)
    requires
        keys_unique(a),
        keys_unique(b),
        entries_cover(a, b),
        entries_cover(b, a),
    ensures
        map_of_entries(a) == map_of_entries(b),
{
    assert forall|k: Seq<char>| entries_have_key(a, k) implies entries_have_key(b, k) by {
        let w = choose|i: int| 0 <= i < a.len() && a[i].0@ == k;
        assert(entries_have_key(b, a[w].0@));
    }
    assert forall|k: Seq<char>| entries_have_key(b, k) implies entries_have_key(a, k) by {
        let w = choose|i: int| 0 <= i < b.len() && b[i].0@ == k;
        assert(entries_have_key(a, b[w].0@));
    }
    assert forall|k: Seq<char>| #[trigger] entries_have_key(a, k) implies a[entry_index(a, k)].1@
        == b[entry_index(b, k)].1@ by {
        let wa = entry_index(a, k);
        assert(a[wa].0@ == k);
        assert(entries_have_key(b, a[wa].0@) && b[entry_index(b, a[wa].0@)].1@ == a[wa].1@);
    }
    assert(map_of_entries(a) =~= map_of_entries(b));
}

/// An entry of `a` that `b` does not cover keeps the two mappings apart.
proof fn lemma_cover_missing_unequal(a: Seq<(String, String)>, b: Seq<(String, String)>)
    requires
        keys_unique(a),
        keys_unique(b),
        !entries_cover(a, b),
    ensures
        map_of_entries(a) != map_of_entries(b),
{
    let i = choose|i: int| 0 <= i < a.len() && !(entries_have_key(b, (#[trigger] a[i]).0@)
        && b[entry_index(b, a[i].0@)].1@ == a[i].1@);
    let k = a[i].0@;
    assert(entries_have_key(a, k));
    let wa = entry_index(a, k);
    assert(a[wa].0@ == k);
    if wa != i {
        assert(a[wa].0@ == a[i].0@);
        assert(false);
    }
    assert(map_of_entries(a).dom().contains(k));
    assert(map_of_entries(a)[k] == a[i].1@);
    if entries_have_key(b, k) {
        assert(map_of_entries(b).dom().contains(k));
        assert(map_of_entries(b)[k] != map_of_entries(a)[k]);
    } else {
        assert(!map_of_entries(b).dom().contains(k));
    }
}

/// The position of the entry carrying `key`, if any.
fn find_key(entries: &Vec<(String, String)>, key: &String) -> (r: Option<usize>)
    ensures
        match r {
            Some(i) => i < entries@.len() && entries@[i as int].0@ == key@,
            None => forall|j: int| 0 <= j < entries@.len() ==> entries@[j].0@ != key@,
        },
{
    let n = entries.len();
    let mut i: usize = 0;
    while i < n
        invariant
            n == entries@.len(),
            i <= n,
            forall|j: int| 0 <= j < i ==> entries@[j].0@ != key@,
        decreases n - i,
    {
        if entries[i].0 == *key {
            return Some(i);
        }
        i = i + 1;
    }
    None
}

/// Replacing the value at the unique position of a key updates the mapping at
/// that key alone.
proof fn lemma_update_is_insert(prior: Seq<(String, String)>, updated: Seq<(String, String)>, i: int)
    requires
        keys_unique(prior),
        0 <= i < prior.len(),
        updated == prior.update(i, (updated[i].0, updated[i].1)),
        updated[i].0@ == prior[i].0@,
    ensures
        keys_unique(updated),
        map_of_entries(updated) == map_of_entries(prior).insert(updated[i].0@, updated[i].1@),
{
    let key = updated[i].0@;
    assert forall|k: Seq<char>| entries_have_key(updated, k) implies entries_have_key(prior, k) by {
        let w = choose|j: int| 0 <= j < updated.len() && updated[j].0@ == k;
        assert(prior[w].0@ == k);
    }
    assert forall|k: Seq<char>| entries_have_key(prior, k) implies entries_have_key(updated, k) by {
        let w = choose|j: int| 0 <= j < prior.len() && prior[j].0@ == k;
        assert(updated[w].0@ == k);
    }
    assert forall|k: Seq<char>| #[trigger] entries_have_key(updated, k) && k != key implies
        updated[entry_index(updated, k)].1@ == prior[entry_index(prior, k)].1@ by {
        let wu = entry_index(updated, k);
        let wp = entry_index(prior, k);
        assert(updated[wu].0@ == k);
        assert(prior[wp].0@ == k);
        assert(wu != i);
        assert(prior[wu].0@ == k);
        if wp != wu {
            assert(prior[wp].0@ == prior[wu].0@);
            assert(false);
        }
    }
    assert(entries_have_key(updated, key));
    let wu = entry_index(updated, key);
    assert(updated[wu].0@ == key);
    if wu != i {
        assert(prior[wu].0@ == prior[i].0@);
        assert(false);
    }
    assert(map_of_entries(updated) =~= map_of_entries(prior).insert(updated[i].0@, updated[i].1@));
}

/// Appending an entry with a fresh key extends the mapping at that key alone.
proof fn lemma_push_is_insert(prior: Seq<(String, String)>, updated: Seq<(String, String)>)
    requires
        keys_unique(prior),
        updated == prior.push((updated.last().0, updated.last().1)),
        forall|j: int| 0 <= j < prior.len() ==> prior[j].0@ != updated.last().0@,
    ensures
        keys_unique(updated),
        map_of_entries(updated) == map_of_entries(prior).insert(updated.last().0@, updated.last().1@),
{
    let n = prior.len() as int;
    let key = updated.last().0@;
    assert forall|k: Seq<char>| #[trigger] entries_have_key(updated, k) && k != key implies
        entries_have_key(prior, k) && updated[entry_index(updated, k)].1@ == prior[entry_index(
            prior,
            k,
        )].1@ by {
        let wu = entry_index(updated, k);
        assert(updated[wu].0@ == k);
        assert(wu != n);
        assert(prior[wu].0@ == k);
        let wp = entry_index(prior, k);
        assert(prior[wp].0@ == k);
        if wp != wu {
            assert(prior[wp].0@ == prior[wu].0@);
            assert(false);
        }
    }
    assert forall|k: Seq<char>| entries_have_key(prior, k) implies entries_have_key(updated, k) by {
        let w = choose|j: int| 0 <= j < prior.len() && prior[j].0@ == k;
        assert(updated[w].0@ == k);
    }
    assert(entries_have_key(updated, key));
    let wu = entry_index(updated, key);
    assert(updated[wu].0@ == key);
    if wu != n {
        assert(prior[wu].0@ == key);
        assert(false);
    }
    assert(map_of_entries(updated) =~= map_of_entries(prior).insert(updated.last().0@, updated.last().1@));
}

/// With unique keys, the mapping has exactly one member per entry.
proof fn lemma_key_count(entries: Seq<(String, String)>)
    requires
        keys_unique(entries),
    ensures
        Set::new(|k: Seq<char>| entries_have_key(entries, k)).finite(),
        Set::new(|k: Seq<char>| entries_have_key(entries, k)).len() == entries.len(),
    decreases entries.len(),
{
    let keys = Set::new(|k: Seq<char>| entries_have_key(entries, k));
    if entries.len() == 0 {
        assert(keys =~= Set::<Seq<char>>::empty());
    } else {
        let prefix = entries.drop_last();
        let prefix_keys = Set::new(|k: Seq<char>| entries_have_key(prefix, k));
        lemma_key_count(prefix);
        let last = entries.last();
        assert forall|k: Seq<char>| #[trigger] entries_have_key(entries, k) && k != last.0@ implies
            entries_have_key(prefix, k) by {
            let w = choose|j: int| 0 <= j < entries.len() && entries[j].0@ == k;
            assert(w != entries.len() - 1);
            assert(prefix[w].0@ == k);
        }
        assert forall|k: Seq<char>| entries_have_key(prefix, k) implies entries_have_key(entries, k) by {
            let w = choose|j: int| 0 <= j < prefix.len() && prefix[j].0@ == k;
            assert(entries[w].0@ == k);
        }
        assert(entries_have_key(entries, last.0@)) by {
            assert(entries[entries.len() - 1].0@ == last.0@);
        }
        assert(!entries_have_key(prefix, last.0@)) by {
            if entries_have_key(prefix, last.0@) {
                let w = choose|j: int| 0 <= j < prefix.len() && prefix[j].0@ == last.0@;
                assert(entries[w].0@ == entries[entries.len() - 1].0@);
                assert(false);
            }
        }
        assert(keys =~= prefix_keys.insert(last.0@));
    }
}

} // verus!
