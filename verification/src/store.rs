use vstd::prelude::*;

use crate::error::Error;

verus! {

/// An entry in the password store.
#[derive(Debug)]
pub struct Entry {
    /// Email or username associated with this entry.
    pub username: String,

    /// Password associated with this entry.
    pub password: String,
}

/// The mathematical content of an [`Entry`]: both fields as character
/// sequences.
pub ghost struct EntryView {
    pub username: Seq<char>,
    pub password: Seq<char>,
}

impl View for Entry {
    type V = EntryView;

    open spec fn view(&self) -> EntryView {
        EntryView { username: self.username@, password: self.password@ }
    }
}

impl Clone for Entry {
    fn clone(&self) -> (r: Self)
        ensures
            r == *self,
    {
        Entry { username: self.username.clone(), password: self.password.clone() }
    }
}

/// The account-to-entry mapping of a store, one pair per account, in the
/// order the accounts were added.
pub type StoreRows = Seq<(Seq<char>, EntryView)>;

/// True when no account name occurs twice among the rows.
pub open spec fn unique_keys(rows: StoreRows) -> bool {
    forall|i: int, j: int| 0 <= i < j < rows.len() ==> (#[trigger] rows[i]).0 != (#[trigger] rows[j]).0
}

/// The unordered mapping described by a sequence of rows; a later row with
/// the same account name would win, but well-formed stores never hold one.
pub open spec fn map_of(rows: StoreRows) -> Map<Seq<char>, EntryView>
    decreases rows.len(),
{
    if rows.len() == 0 {
        Map::empty()
    } else {
        map_of(rows.drop_last()).insert(rows.last().0, rows.last().1)
    }
}

/// A key is in `map_of(rows)` exactly when some row carries it.
pub proof fn lemma_map_of_contains(rows: StoreRows, k: Seq<char>)
    ensures
        map_of(rows).contains_key(k) <==> exists|i: int| 0 <= i < rows.len() && (#[trigger] rows[i]).0 == k,
    decreases rows.len(),
{
    if rows.len() > 0 {
        lemma_map_of_contains(rows.drop_last(), k);
        if rows.last().0 == k {
            assert(rows[rows.len() - 1].0 == k);
        } else if map_of(rows).contains_key(k) {
            let i = choose|i: int| 0 <= i < rows.drop_last().len() && (#[trigger] rows.drop_last()[i]).0 == k;
            assert(rows[i].0 == k);
        } else {
            assert forall|i: int| 0 <= i < rows.len() && (#[trigger] rows[i]).0 == k implies false by {
                if i < rows.len() - 1 {
                    assert(rows.drop_last()[i].0 == k);
                }
            }
        }
    }
}

/// Under unique keys, the mapping sends each row's account to that row's
/// entry.
pub proof fn lemma_map_of_index(rows: StoreRows, i: int)
    requires
        unique_keys(rows),
        0 <= i < rows.len(),
    ensures
        map_of(rows).contains_key(rows[i].0),
        map_of(rows)[rows[i].0] == rows[i].1,
    decreases rows.len(),
{
    if i == rows.len() - 1 {
        assert(map_of(rows) == map_of(rows.drop_last()).insert(rows.last().0, rows.last().1));
    } else {
        assert(unique_keys(rows.drop_last())) by {
            assert forall|p: int, q: int| 0 <= p < q < rows.drop_last().len() implies (#[trigger] rows.drop_last()[p]).0 != (#[trigger] rows.drop_last()[q]).0 by {
                assert(rows[p].0 != rows[q].0);
            }
        }
        assert(rows.drop_last()[i] == rows[i]);
        lemma_map_of_index(rows.drop_last(), i);
        assert(rows[i].0 != rows.last().0) by {
            assert(rows[rows.len() - 1] == rows.last());
        }
    }
}

/// Appending a row inserts its pair into the mapping.
pub proof fn lemma_map_of_push(rows: StoreRows, k: Seq<char>, v: EntryView)
    ensures
        map_of(rows.push((k, v))) == map_of(rows).insert(k, v),
{
    let pushed = rows.push((k, v));
    assert(pushed.drop_last() =~= rows);
    assert(pushed.last() == (k, v));
}

/// In-memory mapping from account name to entry, with unique account names.
#[derive(Debug)]
pub struct PasswordStore {
    data: Vec<(String, Entry)>,
}

impl View for PasswordStore {
    type V = Map<Seq<char>, EntryView>;

    open spec fn view(&self) -> Map<Seq<char>, EntryView> {
        map_of(self.rows())
    }
}

impl PasswordStore {
    /// The stored pairs in insertion order, as mathematical values.
    pub closed spec fn rows(&self) -> StoreRows {
        self.data@.map_values(|p: (String, Entry)| (p.0@, p.1@))
    }

    /// Well-formedness: no account name occurs twice.
    pub open spec fn wf(&self) -> bool {
        unique_keys(self.rows())
    }

    /// Returns an empty mapping.
    pub fn new() -> (r: PasswordStore)
        ensures
            r.wf(),
            r.rows() == Seq::<(Seq<char>, EntryView)>::empty(),
            r@ == Map::<Seq<char>, EntryView>::empty(),
    {
        let r = PasswordStore { data: Vec::new() };
        proof {
            assert(r.rows() =~= Seq::<(Seq<char>, EntryView)>::empty());
        }
        r
    }

    /// True exactly when the store holds no entries.
    pub fn is_empty(&self) -> (r: bool)
        requires
            self.wf(),
        ensures
            r == (self.rows().len() == 0),
            r == (self@ == Map::<Seq<char>, EntryView>::empty()),
    {
        proof {
            if self.rows().len() > 0 {
                lemma_map_of_index(self.rows(), 0);
                assert(self@ != Map::<Seq<char>, EntryView>::empty());
            }
        }
        self.data.len() == 0
    }

    /// Returns the entry stored for `account`, or nothing if it is absent;
    /// absence is a normal outcome, not an error.
    pub fn get_entry(&self, account: &str) -> (r: Option<&Entry>)
        requires
            self.wf(),
        ensures
            match r {
                Some(e) => self@.contains_key(account@) && e@ == self@[account@],
                None => !self@.contains_key(account@),
            },
    {
        let acc = account.to_owned();
        let n = self.data.len();
        let mut i: usize = 0;
        while i < n
            invariant
                n == self.data.len(),
                0 <= i <= n,
                self.wf(),
                acc@ == account@,
                forall|j: int| 0 <= j < i ==> (#[trigger] self.rows()[j]).0 != account@,
            decreases n - i,
        {
            if self.data[i].0 == acc {
                proof {
                    assert(self.rows()[i as int].0 == account@);
                    lemma_map_of_index(self.rows(), i as int);
                }
                return Some(&self.data[i].1);
            }
            proof {
                assert(self.rows()[i as int].0 != account@);
            }
            i += 1;
        }
        proof {
            lemma_map_of_contains(self.rows(), account@);
        }
        None
    }

    /// Returns the password stored for `account`, or nothing if it is absent.
    pub fn get_password(&self, account: &str) -> (r: Option<&String>)
        requires
            self.wf(),
        ensures
            match r {
                Some(p) => self@.contains_key(account@) && p@ == self@[account@].password,
                None => !self@.contains_key(account@),
            },
    {
        match self.get_entry(account) {
            Some(entry) => Some(&entry.password),
            None => None,
        }
    }

    /// Inserts `entry` under `account`; an account that is already present
    /// is rejected with `DuplicateAccount` and the store is left unchanged,
    /// never silently overwritten.
    pub fn add_entry(&mut self, account: &str, entry: Entry) -> (r: Result<(), Error>)
        requires
            old(self).wf(),
        ensures
            final(self).wf(),
            match r {
                Ok(()) => !old(self)@.contains_key(account@)
                    && final(self).rows() == old(self).rows().push((account@, entry@))
                    && final(self)@ == old(self)@.insert(account@, entry@),
                Err(e) => e == Error::DuplicateAccount
                    && old(self)@.contains_key(account@)
                    && *final(self) == *old(self),
            },
    {
        let present = match self.get_entry(account) {
            Some(_) => true,
            None => false,
        };
        if present {
            return Err(Error::DuplicateAccount);
        }
        proof {
            lemma_map_of_contains(self.rows(), account@);
        }
        let ghost old_rows = self.rows();
        self.data.push((account.to_owned(), entry));
        proof {
            assert(self.rows() =~= old_rows.push((account@, entry@)));
            assert forall|i: int, j: int| 0 <= i < j < self.rows().len() implies (#[trigger] self.rows()[i]).0 != (#[trigger] self.rows()[j]).0 by {
                if j == self.rows().len() - 1 {
                    assert(old_rows[i].0 != account@);
                }
            }
            lemma_map_of_push(old_rows, account@, entry@);
        }
        Ok(())
    }

    /// Inserts a username/password pair under `account`; same contract as
    /// [`PasswordStore::add_entry`].
    pub fn add_password(&mut self, account: String, username: String, password: String) -> (r: Result<(), Error>)
        requires
            old(self).wf(),
        ensures
            final(self).wf(),
            match r {
                Ok(()) => !old(self)@.contains_key(account@)
                    && final(self).rows() == old(self).rows().push((account@, (EntryView { username: username@, password: password@ })))
                    && final(self)@ == old(self)@.insert(account@, (EntryView { username: username@, password: password@ })),
                Err(e) => e == Error::DuplicateAccount
                    && old(self)@.contains_key(account@)
                    && *final(self) == *old(self),
            },
    {
        self.add_entry(account.as_str(), Entry { username, password })
    }

    /// Every stored pair, in insertion order.
    pub fn entries(&self) -> (r: Vec<(String, Entry)>)
        ensures
            r@.len() == self.rows().len(),
            forall|i: int| 0 <= i < r@.len() ==> ((#[trigger] r@[i]).0@, r@[i].1@) == self.rows()[i],
    {
        let n = self.data.len();
        let mut out: Vec<(String, Entry)> = Vec::new();
        let mut i: usize = 0;
        while i < n
            invariant
                n == self.data.len(),
                0 <= i <= n,
                out@.len() == i,
                forall|j: int| 0 <= j < i ==> ((#[trigger] out@[j]).0@, out@[j].1@) == self.rows()[j],
            decreases n - i,
        {
            out.push((self.data[i].0.clone(), self.data[i].1.clone()));
            i += 1;
        }
        out
    }

    /// Builds a store from account/(username, password) pairs, as a mapping
    /// conversion; a repeated account name is rejected with
    /// `DuplicateAccount`.
    pub fn from_pairs(pairs: Vec<(String, (String, String))>) -> (r: Result<PasswordStore, Error>)
        ensures
            match r {
                Ok(s) => s.wf()
                    && s.rows().len() == pairs@.len()
                    && forall|i: int| 0 <= i < pairs@.len() ==> (#[trigger] s.rows()[i]) == ((pairs@[i].0@, (EntryView { username: pairs@[i].1.0@, password: pairs@[i].1.1@ }))),
                Err(e) => e == Error::DuplicateAccount
                    && exists|i: int, j: int| 0 <= i < j < pairs@.len() && (#[trigger] pairs@[i]).0@ == (#[trigger] pairs@[j]).0@,
            },
    {
        let mut s = PasswordStore::new();
        let n = pairs.len();
        let mut i: usize = 0;
        while i < n
            invariant
                n == pairs@.len(),
                0 <= i <= n,
                s.wf(),
                s.rows().len() == i,
                forall|j: int| 0 <= j < i ==> (#[trigger] s.rows()[j]) == ((pairs@[j].0@, (EntryView { username: pairs@[j].1.0@, password: pairs@[j].1.1@ }))),
            decreases n - i,
        {
            let account = pairs[i].0.clone();
            let username = pairs[i].1.0.clone();
            let password = pairs[i].1.1.clone();
            let ghost pre = s;
            match s.add_password(account, username, password) {
                Ok(()) => {},
                Err(_) => {
                    proof {
                        lemma_map_of_contains(pre.rows(), pairs@[i as int].0@);
                        let j = choose|j: int| 0 <= j < pre.rows().len() && (#[trigger] pre.rows()[j]).0 == pairs@[i as int].0@;
                        assert(pairs@[j].0@ == pairs@[i as int].0@);
                    }
                    return Err(Error::DuplicateAccount);
                },
            }
            i += 1;
        }
        Ok(s)
    }
}

} // verus!
