//! The account records and the store that owns them.
//!
//! Amounts are exact integer units. The store is a vector of accounts with
//! pairwise distinct names; its abstract content is a map from account name
//! to the pair of balance and debt.

use vstd::prelude::*;

verus! {

/// Largest total debt an account may carry; loans are refused beyond it.
pub const LOAN_CEILING: i64 = 1000;

/// A named account: spendable funds and outstanding loan principal.
pub struct Account {
    pub name: String,
    pub balance: i64,
    pub debt: i64,
}

/// The mathematical content of one account: its two scalar fields.
pub struct AccountView {
    pub balance: int,
    pub debt: int,
}

impl Account {
    /// Both fields are non-negative, and the debt respects the ceiling.
    pub open spec fn valid(self) -> bool {
        0 <= self.balance && 0 <= self.debt && self.debt <= LOAN_CEILING
    }
}

impl View for Account {
    type V = AccountView;

    open spec fn view(&self) -> AccountView {
        AccountView { balance: self.balance as int, debt: self.debt as int }
    }
}

/// Owns every account of the session, at most one per name.
pub struct Accounts {
    pub list: Vec<Account>,
}

impl Accounts {
    /// No two accounts share a name.
    pub open spec fn names_unique(self) -> bool {
        forall|i: int, j: int|
            0 <= i < j < self.list@.len() ==> (#[trigger] self.list@[i].name@) != (
            #[trigger] self.list@[j].name@)
    }

    /// Every account satisfies its own invariant.
    pub open spec fn all_valid(self) -> bool {
        forall|i: int| 0 <= i < self.list@.len() ==> (#[trigger] self.list@[i]).valid()
    }

    /// The store's invariant: distinct names, valid accounts.
    pub open spec fn inv(self) -> bool {
        self.names_unique() && self.all_valid()
    }

    /// Some account carries this name.
    pub open spec fn has_name(self, name: Seq<char>) -> bool {
        exists|i: int| 0 <= i < self.list@.len() && (#[trigger] self.list@[i].name@) == name
    }

    /// The position of the account carrying this name.
    pub open spec fn index_of(self, name: Seq<char>) -> int {
        choose|i: int| 0 <= i < self.list@.len() && (#[trigger] self.list@[i].name@) == name
    }

    /// With distinct names, an account's position is the one its name maps to.
    pub proof fn lemma_index_of(self, i: int)
        requires
            self.names_unique(),
            0 <= i < self.list@.len(),
        ensures
            self.has_name(self.list@[i].name@),
            self.index_of(self.list@[i].name@) == i,
    {
        let name = self.list@[i].name@;
        assert(self.has_name(name));
        let j = self.index_of(name);
        if j < i {
            assert(self.list@[j].name@ != self.list@[i].name@);
        } else if j > i {
            assert(self.list@[i].name@ != self.list@[j].name@);
        }
    }

    /// Relates a position in the store to the abstract map.
    pub proof fn lemma_view_at(self, i: int)
        requires
            self.names_unique(),
            0 <= i < self.list@.len(),
        ensures
            self@.contains_key(self.list@[i].name@),
            self@[self.list@[i].name@] == self.list@[i]@,
    {
        self.lemma_index_of(i);
    }

    /// An empty store, ready for its first account.
    pub fn new() -> (r: Self)
        ensures
            r.inv(),
            r@ == Map::<Seq<char>, AccountView>::empty(),
    {
        let r = Accounts { list: Vec::new() };
        proof {
            assert(r@ =~= Map::<Seq<char>, AccountView>::empty());
        }
        r
    }

    /// Whether an account with this name is present.
    pub fn contains(&self, name: &str) -> (r: bool)
        requires
            self.inv(),
        ensures
            r == self@.contains_key(name@),
    {
        self.find(name).is_some()
    }

    /// Linear scan for the account carrying this name.
    pub(crate) fn find(&self, name: &str) -> (r: Option<usize>)
        requires
            self.inv(),
        ensures
            match r {
                Some(i) => {
                    &&& i < self.list.len()
                    &&& self.list@[i as int].name@ == name@
                    &&& self@.contains_key(name@)
                    &&& self@[name@] == self.list@[i as int]@
                },
                None => !self@.contains_key(name@),
            },
    {
        let key: String = name.to_owned();
        let n = self.list.len();
        for i in 0..n
            invariant
                self.inv(),
                n == self.list.len(),
                key@ == name@,
                forall|k: int| 0 <= k < i ==> (#[trigger] self.list@[k].name@) != name@,
        {
            if self.list[i].name == key {
                proof {
                    self.lemma_view_at(i as int);
                }
                return Some(i);
            }
        }
        proof {
            assert(!self.has_name(name@));
        }
        None
    }
}

impl Accounts {
    /// Replacing one account by another of the same name updates exactly
    /// that name's entry of the abstract map.
    pub proof fn lemma_update_view(pre: Accounts, post: Accounts, i: int, a: Account)
        requires
            pre.names_unique(),
            0 <= i < pre.list@.len(),
            post.list@ == pre.list@.update(i, a),
            a.name@ == pre.list@[i].name@,
        ensures
            post.names_unique(),
            post@ =~= pre@.insert(a.name@, a@),
    {
        assert forall|n: Seq<char>| pre.has_name(n) implies post.has_name(n) by {
            let k = choose|k: int|
                0 <= k < pre.list@.len() && (#[trigger] pre.list@[k].name@) == n;
            assert(post.list@[k].name@ == n);
        }
        assert forall|n: Seq<char>| post.has_name(n) implies pre.has_name(n) by {
            let k = choose|k: int|
                0 <= k < post.list@.len() && (#[trigger] post.list@[k].name@) == n;
            assert(pre.list@[k].name@ == n);
        }
        assert forall|p: int, q: int| 0 <= p < q < post.list@.len() implies (
        #[trigger] post.list@[p].name@) != (#[trigger] post.list@[q].name@) by {
            assert(post.list@[p].name@ == pre.list@[p].name@);
            assert(post.list@[q].name@ == pre.list@[q].name@);
        }
        assert forall|n: Seq<char>| post@.dom().contains(n) implies post@[n]
            == pre@.insert(a.name@, a@)[n] by {
            if n == a.name@ {
                post.lemma_index_of(i);
                assert(post.list@[i] == a);
            } else {
                let k = choose|k: int|
                    0 <= k < pre.list@.len() && (#[trigger] pre.list@[k].name@) == n;
                assert(pre.list@[k].name@ == n);
                pre.lemma_index_of(k);
                assert(post.list@[k].name@ == n);
                post.lemma_index_of(k);
                assert(post.list@[k] == pre.list@[k]);
            }
        }
    }

    /// Appending an account under a fresh name adds exactly that name's
    /// entry to the abstract map.
    pub proof fn lemma_push_view(pre: Accounts, post: Accounts, a: Account)
        requires
            pre.names_unique(),
            !pre.has_name(a.name@),
            post.list@ == pre.list@.push(a),
        ensures
            post.names_unique(),
            post@ =~= pre@.insert(a.name@, a@),
    {
        let len = pre.list@.len() as int;
        assert forall|p: int, q: int| 0 <= p < q < post.list@.len() implies (
        #[trigger] post.list@[p].name@) != (#[trigger] post.list@[q].name@) by {
            assert(post.list@[p].name@ == pre.list@[p].name@);
            if q < len {
                assert(post.list@[q].name@ == pre.list@[q].name@);
            } else {
                assert(post.list@[q] == a);
                if pre.list@[p].name@ == a.name@ {
                    assert(pre.has_name(a.name@));
                }
            }
        }
        assert(post.list@[len] == a);
        assert(post.has_name(a.name@));
        assert forall|n: Seq<char>| post@.dom().contains(n) implies post@[n]
            == pre@.insert(a.name@, a@)[n] by {
            if n == a.name@ {
                post.lemma_index_of(len);
            } else {
                let k = choose|k: int|
                    0 <= k < post.list@.len() && (#[trigger] post.list@[k].name@) == n;
                if k == len {
                    assert(post.list@[k] == a);
                } else {
                    assert(pre.list@[k].name@ == n);
                    pre.lemma_index_of(k);
                    post.lemma_index_of(k);
                    assert(post.list@[k] == pre.list@[k]);
                }
            }
        }
        assert forall|n: Seq<char>| pre@.dom().contains(n) implies post@.dom().contains(n) by {
            let k = choose|k: int|
                0 <= k < pre.list@.len() && (#[trigger] pre.list@[k].name@) == n;
            assert(post.list@[k].name@ == n);
        }
    }
}

impl View for Accounts {
    type V = Map<Seq<char>, AccountView>;

    open spec fn view(&self) -> Map<Seq<char>, AccountView> {
        Map::new(|n: Seq<char>| self.has_name(n), |n: Seq<char>| self.list@[self.index_of(n)]@)
    }
}

} // verus!
