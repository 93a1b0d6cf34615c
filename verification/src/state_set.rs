//! State sets: which parts of the account trie a transaction touched.
//!
//! A prestate trace frame maps each touched account to the fields it
//! carries. The extractor collapses such a frame into three sets of
//! identifiers, one per dependency axis: addresses whose balance was
//! touched, addresses whose code was touched, and touched storage slot
//! keys. Values are not retained, only presence; nonce entries are
//! deliberately ignored, because a pure nonce bump would otherwise make
//! every transaction of a sender depend on its predecessor trivially.

use vstd::prelude::*;

use crate::seq_view;

verus! {

/// One touched account of a prestate trace frame: the address, whether the
/// frame carries a balance, nonce or code entry for it, and the storage
/// slot keys it touches.
#[derive(Debug)]
pub struct AccountState {
    pub address: String,
    pub balance: bool,
    pub nonce: bool,
    pub code: bool,
    pub storage: Vec<String>,
}

/// The mathematical value of one touched account.
pub struct AccountStateView {
    pub address: Seq<char>,
    pub balance: bool,
    pub nonce: bool,
    pub code: bool,
    pub storage: Seq<Seq<char>>,
}

impl View for AccountState {
    type V = AccountStateView;

    open spec fn view(&self) -> AccountStateView {
        AccountStateView {
            address: self.address@,
            balance: self.balance,
            nonce: self.nonce,
            code: self.code,
            storage: seq_view(self.storage@),
        }
    }
}

/// A set of touched state identifiers, partitioned by axis.
#[derive(Debug)]
pub struct StateSet {
    pub balance_set: Vec<String>,
    pub code_set: Vec<String>,
    pub storage_set: Vec<String>,
}

/// The mathematical value of a state set: three sets of identifiers.
pub struct StateSetView {
    pub balance_set: Set<Seq<char>>,
    pub code_set: Set<Seq<char>>,
    pub storage_set: Set<Seq<char>>,
}

/// The set of identifiers a sequence holds.
pub open spec fn ids_of(s: Seq<Seq<char>>) -> Set<Seq<char>> {
    Set::new(|x: Seq<char>| s.contains(x))
}

impl View for StateSet {
    type V = StateSetView;

    open spec fn view(&self) -> StateSetView {
        StateSetView {
            balance_set: ids_of(seq_view(self.balance_set@)),
            code_set: ids_of(seq_view(self.code_set@)),
            storage_set: ids_of(seq_view(self.storage_set@)),
        }
    }
}

/// The read set and the write set of one transaction.
#[derive(Debug)]
pub struct TransactionStateSet {
    pub read_set: StateSet,
    pub write_set: StateSet,
}

/// The mathematical value of a transaction's read and write sets.
pub struct TransactionStateSetView {
    pub read_set: StateSetView,
    pub write_set: StateSetView,
}

impl View for TransactionStateSet {
    type V = TransactionStateSetView;

    open spec fn view(&self) -> TransactionStateSetView {
        TransactionStateSetView { read_set: self.read_set@, write_set: self.write_set@ }
    }
}

/// The addresses whose balance a frame touches.
pub open spec fn balance_addresses(entries: Seq<AccountStateView>) -> Set<Seq<char>> {
    Set::new(
        |a: Seq<char>|
            exists|i: int| 0 <= i < entries.len() && entries[i].balance && entries[i].address == a,
    )
}

/// The addresses whose code a frame touches.
pub open spec fn code_addresses(entries: Seq<AccountStateView>) -> Set<Seq<char>> {
    Set::new(
        |a: Seq<char>|
            exists|i: int| 0 <= i < entries.len() && entries[i].code && entries[i].address == a,
    )
}

/// The storage slot keys a frame touches, over all its accounts.
pub open spec fn storage_slots(entries: Seq<AccountStateView>) -> Set<Seq<char>> {
    Set::new(
        |k: Seq<char>|
            exists|i: int| 0 <= i < entries.len() && entries[i].storage.contains(k),
    )
}

/// The state set a frame collapses to.
pub open spec fn state_set_of(entries: Seq<AccountStateView>) -> StateSetView {
    StateSetView {
        balance_set: balance_addresses(entries),
        code_set: code_addresses(entries),
        storage_set: storage_slots(entries),
    }
}

/// Appending an identifier inserts it into the identifier set.
proof fn lemma_ids_of_push(s: Seq<Seq<char>>, x: Seq<char>)
    ensures
        ids_of(s.push(x)) == ids_of(s).insert(x),
{
    assert forall|y: Seq<char>| ids_of(s.push(x)).contains(y) implies ids_of(s).insert(
        x,
    ).contains(y) by {
        let j = choose|j: int| 0 <= j < s.push(x).len() && s.push(x)[j] == y;
        if j < s.len() {
            assert(s[j] == y);
        }
    }
    assert forall|y: Seq<char>| ids_of(s).insert(x).contains(y) implies ids_of(
        s.push(x),
    ).contains(y) by {
        if y == x {
            assert(s.push(x)[s.len() as int] == y);
        } else {
            let j = choose|j: int| 0 <= j < s.len() && s[j] == y;
            assert(s.push(x)[j] == y);
        }
    }
    assert(ids_of(s.push(x)) =~= ids_of(s).insert(x));
}

/// One more frame entry extends the balance-address set by the entry's
/// address exactly when the entry touches the balance.
proof fn lemma_balance_addresses_take(entries: Seq<AccountStateView>, i: int)
    requires
        0 <= i < entries.len(),
    ensures
        balance_addresses(entries.take(i + 1)) == (if entries[i].balance {
            balance_addresses(entries.take(i)).insert(entries[i].address)
        } else {
            balance_addresses(entries.take(i))
        }),
{
    let pre = entries.take(i);
    let post = entries.take(i + 1);
    let expected = if entries[i].balance {
        balance_addresses(pre).insert(entries[i].address)
    } else {
        balance_addresses(pre)
    };
    assert forall|a: Seq<char>| balance_addresses(post).contains(a) implies expected.contains(
        a,
    ) by {
        let j = choose|j: int| 0 <= j < post.len() && post[j].balance && post[j].address == a;
        if j < i {
            assert(pre[j].balance && pre[j].address == a);
        } else {
            assert(post[j] == entries[i]);
        }
    }
    assert forall|a: Seq<char>| expected.contains(a) implies balance_addresses(post).contains(
        a,
    ) by {
        if entries[i].balance && a == entries[i].address {
            assert(post[i].balance && post[i].address == a);
        } else {
            let j = choose|j: int| 0 <= j < pre.len() && pre[j].balance && pre[j].address == a;
            assert(post[j].balance && post[j].address == a);
        }
    }
    assert(balance_addresses(post) =~= expected);
}

/// One more frame entry extends the code-address set by the entry's
/// address exactly when the entry touches the code.
proof fn lemma_code_addresses_take(entries: Seq<AccountStateView>, i: int)
    requires
        0 <= i < entries.len(),
    ensures
        code_addresses(entries.take(i + 1)) == (if entries[i].code {
            code_addresses(entries.take(i)).insert(entries[i].address)
        } else {
            code_addresses(entries.take(i))
        }),
{
    let pre = entries.take(i);
    let post = entries.take(i + 1);
    let expected = if entries[i].code {
        code_addresses(pre).insert(entries[i].address)
    } else {
        code_addresses(pre)
    };
    assert forall|a: Seq<char>| code_addresses(post).contains(a) implies expected.contains(a) by {
        let j = choose|j: int| 0 <= j < post.len() && post[j].code && post[j].address == a;
        if j < i {
            assert(pre[j].code && pre[j].address == a);
        } else {
            assert(post[j] == entries[i]);
        }
    }
    assert forall|a: Seq<char>| expected.contains(a) implies code_addresses(post).contains(a) by {
        if entries[i].code && a == entries[i].address {
            assert(post[i].code && post[i].address == a);
        } else {
            let j = choose|j: int| 0 <= j < pre.len() && pre[j].code && pre[j].address == a;
            assert(post[j].code && post[j].address == a);
        }
    }
    assert(code_addresses(post) =~= expected);
}

/// One more frame entry extends the slot-key set by the entry's touched
/// slots.
proof fn lemma_storage_slots_take(entries: Seq<AccountStateView>, i: int)
    requires
        0 <= i < entries.len(),
    ensures
        storage_slots(entries.take(i + 1)) == storage_slots(entries.take(i)).union(
            ids_of(entries[i].storage),
        ),
{
    let pre = entries.take(i);
    let post = entries.take(i + 1);
    let expected = storage_slots(pre).union(ids_of(entries[i].storage));
    assert forall|k: Seq<char>| storage_slots(post).contains(k) implies expected.contains(k) by {
        let j = choose|j: int| 0 <= j < post.len() && post[j].storage.contains(k);
        if j < i {
            assert(pre[j].storage.contains(k));
        } else {
            assert(post[j] == entries[i]);
        }
    }
    assert forall|k: Seq<char>| expected.contains(k) implies storage_slots(post).contains(k) by {
        if storage_slots(pre).contains(k) {
            let j = choose|j: int| 0 <= j < pre.len() && pre[j].storage.contains(k);
            assert(post[j].storage.contains(k));
        } else {
            assert(post[i].storage.contains(k));
        }
    }
    assert(storage_slots(post) =~= expected);
}

/// Collects the addresses of the frame entries that touch the balance.
fn collect_balance_addresses(account_state: &Vec<AccountState>) -> (r: Vec<String>)
    ensures
        ids_of(seq_view(r@)) == balance_addresses(seq_view(account_state@)),
{
    let ghost entries = seq_view(account_state@);
    let n = account_state.len();
    let mut out: Vec<String> = Vec::new();
    let mut i: usize = 0;
    proof {
        assert(entries.take(0) =~= Seq::<AccountStateView>::empty());
        assert(seq_view(out@) =~= Seq::<Seq<char>>::empty());
        assert(ids_of(seq_view(out@)) =~= balance_addresses(entries.take(0)));
    }
    while i < n
        invariant
            entries == seq_view(account_state@),
            n == account_state.len(),
            i <= n,
            ids_of(seq_view(out@)) == balance_addresses(entries.take(i as int)),
        decreases n - i,
    {
        proof {
            assert(entries[i as int] == account_state@[i as int]@);
            lemma_balance_addresses_take(entries, i as int);
        }
        if account_state[i].balance {
            let ghost pre = seq_view(out@);
            out.push(account_state[i].address.clone());
            proof {
                lemma_ids_of_push(pre, entries[i as int].address);
                assert(seq_view(out@) =~= pre.push(entries[i as int].address));
            }
        }
        i += 1;
    }
    proof {
        assert(entries.take(n as int) =~= entries);
    }
    out
}

/// Collects the addresses of the frame entries that touch the code.
fn collect_code_addresses(account_state: &Vec<AccountState>) -> (r: Vec<String>)
    ensures
        ids_of(seq_view(r@)) == code_addresses(seq_view(account_state@)),
{
    let ghost entries = seq_view(account_state@);
    let n = account_state.len();
    let mut out: Vec<String> = Vec::new();
    let mut i: usize = 0;
    proof {
        assert(entries.take(0) =~= Seq::<AccountStateView>::empty());
        assert(seq_view(out@) =~= Seq::<Seq<char>>::empty());
        assert(ids_of(seq_view(out@)) =~= code_addresses(entries.take(0)));
    }
    while i < n
        invariant
            entries == seq_view(account_state@),
            n == account_state.len(),
            i <= n,
            ids_of(seq_view(out@)) == code_addresses(entries.take(i as int)),
        decreases n - i,
    {
        proof {
            assert(entries[i as int] == account_state@[i as int]@);
            lemma_code_addresses_take(entries, i as int);
        }
        if account_state[i].code {
            let ghost pre = seq_view(out@);
            out.push(account_state[i].address.clone());
            proof {
                lemma_ids_of_push(pre, entries[i as int].address);
                assert(seq_view(out@) =~= pre.push(entries[i as int].address));
            }
        }
        i += 1;
    }
    proof {
        assert(entries.take(n as int) =~= entries);
    }
    out
}

/// Collects the storage slot keys of all frame entries.
fn collect_storage_slots(account_state: &Vec<AccountState>) -> (r: Vec<String>)
    ensures
        ids_of(seq_view(r@)) == storage_slots(seq_view(account_state@)),
{
    let ghost entries = seq_view(account_state@);
    let n = account_state.len();
    let mut out: Vec<String> = Vec::new();
    let mut i: usize = 0;
    proof {
        assert(entries.take(0) =~= Seq::<AccountStateView>::empty());
        assert(seq_view(out@) =~= Seq::<Seq<char>>::empty());
        assert(ids_of(seq_view(out@)) =~= storage_slots(entries.take(0)));
        assert(ids_of(seq_view(out@)).union(Set::<Seq<char>>::empty()) =~= ids_of(seq_view(out@)));
    }
    while i < n
        invariant
            entries == seq_view(account_state@),
            n == account_state.len(),
            i <= n,
            ids_of(seq_view(out@)) == storage_slots(entries.take(i as int)),
        decreases n - i,
    {
        proof {
            assert(entries[i as int] == account_state@[i as int]@);
            lemma_storage_slots_take(entries, i as int);
        }
        let ghost entry = entries[i as int];
        let m = account_state[i].storage.len();
        let mut j: usize = 0;
        proof {
            assert(entry.storage.take(0) =~= Seq::<Seq<char>>::empty());
            assert(ids_of(Seq::<Seq<char>>::empty()) =~= Set::<Seq<char>>::empty());
            assert(ids_of(seq_view(out@)).union(ids_of(entry.storage.take(0))) =~= ids_of(
                seq_view(out@),
            ));
        }
        while j < m
            invariant
                entries == seq_view(account_state@),
                n == account_state.len(),
                i < n,
                entry == entries[i as int],
                m == account_state[i as int].storage.len(),
                j <= m,
                ids_of(seq_view(out@)) == storage_slots(entries.take(i as int)).union(
                    ids_of(entry.storage.take(j as int)),
                ),
            decreases m - j,
        {
            proof {
                assert(entries[i as int] == account_state@[i as int]@);
                assert(entry.storage[j as int] == account_state@[i as int].storage@[j as int]@);
            }
            let ghost pre = seq_view(out@);
            out.push(account_state[i].storage[j].clone());
            proof {
                lemma_ids_of_push(pre, entry.storage[j as int]);
                assert(seq_view(out@) =~= pre.push(entry.storage[j as int]));
                lemma_ids_of_push(entry.storage.take(j as int), entry.storage[j as int]);
                assert(entry.storage.take(j + 1) =~= entry.storage.take(j as int).push(
                    entry.storage[j as int],
                ));
                assert(storage_slots(entries.take(i as int)).union(
                    ids_of(entry.storage.take(j + 1)),
                ) =~= storage_slots(entries.take(i as int)).union(
                    ids_of(entry.storage.take(j as int)),
                ).insert(entry.storage[j as int]));
            }
            j += 1;
        }
        proof {
            assert(entry.storage.take(m as int) =~= entry.storage);
        }
        i += 1;
    }
    proof {
        assert(entries.take(n as int) =~= entries);
    }
    out
}

/// Collapses a prestate trace frame into a state set: an address joins the
/// balance set when its entry carries a balance, the code set when it
/// carries code, and every touched storage slot key joins the storage set.
/// Nonce entries do not contribute.
pub fn account_state_to_set(account_state: Vec<AccountState>) -> (r: StateSet)
    ensures
        r@ == state_set_of(seq_view(account_state@)),
{
    let balance_set = collect_balance_addresses(&account_state);
    let code_set = collect_code_addresses(&account_state);
    let storage_set = collect_storage_slots(&account_state);
    StateSet { balance_set, code_set, storage_set }
}

/// Whether two identifier sets share an element.
pub open spec fn sets_overlap(x: Set<Seq<char>>, y: Set<Seq<char>>) -> bool {
    exists|e: Seq<char>| x.contains(e) && y.contains(e)
}

/// Whether two identifier vectors hold a common identifier.
fn sets_intersect(a: &Vec<String>, b: &Vec<String>) -> (r: bool)
    ensures
        r == sets_overlap(ids_of(seq_view(a@)), ids_of(seq_view(b@))),
{
    let n = a.len();
    let mut i: usize = 0;
    while i < n
        invariant
            n == a.len(),
            i <= n,
            forall|k: int|
                0 <= k < i ==> !ids_of(seq_view(b@)).contains(#[trigger] seq_view(a@)[k]),
        decreases n - i,
    {
        let m = b.len();
        let mut j: usize = 0;
        while j < m
            invariant
                n == a.len(),
                m == b.len(),
                i < n,
                j <= m,
                forall|l: int| 0 <= l < j ==> seq_view(b@)[l] != seq_view(a@)[i as int],
            decreases m - j,
        {
            if a[i] == b[j] {
                proof {
                    assert(seq_view(a@)[i as int] == a@[i as int]@);
                    assert(seq_view(b@)[j as int] == b@[j as int]@);
                    assert(seq_view(a@).contains(seq_view(a@)[i as int]));
                    assert(seq_view(b@).contains(seq_view(b@)[j as int]));
                    assert(ids_of(seq_view(a@)).contains(seq_view(a@)[i as int]));
                    assert(ids_of(seq_view(b@)).contains(seq_view(a@)[i as int]));
                }
                return true;
            }
            proof {
                assert(seq_view(a@)[i as int] == a@[i as int]@);
                assert(seq_view(b@)[j as int] == b@[j as int]@);
            }
            j += 1;
        }
        proof {
            assert forall|e: Seq<char>| !(seq_view(b@).contains(e) && e == seq_view(
                a@,
            )[i as int]) by {
                if seq_view(b@).contains(e) {
                    let l = choose|l: int| 0 <= l < seq_view(b@).len() && seq_view(b@)[l] == e;
                    assert(seq_view(b@)[l] != seq_view(a@)[i as int]);
                }
            }
            assert(!ids_of(seq_view(b@)).contains(seq_view(a@)[i as int]));
        }
        i += 1;
    }
    proof {
        assert forall|e: Seq<char>|
            !(ids_of(seq_view(a@)).contains(e) && ids_of(seq_view(b@)).contains(e)) by {
            if ids_of(seq_view(a@)).contains(e) {
                let k = choose|k: int| 0 <= k < seq_view(a@).len() && seq_view(a@)[k] == e;
                assert(!ids_of(seq_view(b@)).contains(seq_view(a@)[k]));
            }
        }
    }
    false
}

/// The dependency mask between an earlier transaction's write set and a
/// later transaction's read set: the sum of 0x1 when the balance sets
/// overlap, 0x10 when the code sets overlap, and 0x100 when the storage
/// slot sets overlap.
pub open spec fn dep_mask(prev: TransactionStateSetView, cur: TransactionStateSetView) -> int {
    (if sets_overlap(prev.write_set.balance_set, cur.read_set.balance_set) {
        0x1int
    } else {
        0
    }) + (if sets_overlap(prev.write_set.code_set, cur.read_set.code_set) {
        0x10int
    } else {
        0
    }) + (if sets_overlap(prev.write_set.storage_set, cur.read_set.storage_set) {
        0x100int
    } else {
        0
    })
}

/// Computes the dependency mask of a later transaction (`state`) on an
/// earlier one (`prev_state`): which axes of the earlier write set its
/// read set touches.
pub fn check_tx_dependency(prev_state: &TransactionStateSet, state: &TransactionStateSet) -> (mask:
    i16)
    ensures
        mask as int == dep_mask(prev_state@, state@),
{
    let balance = sets_intersect(&prev_state.write_set.balance_set, &state.read_set.balance_set);
    let code = sets_intersect(&prev_state.write_set.code_set, &state.read_set.code_set);
    let storage = sets_intersect(&prev_state.write_set.storage_set, &state.read_set.storage_set);
    let mut mask: i16 = 0;
    if balance {
        mask += 0x1;
    }
    if code {
        mask += 0x10;
    }
    if storage {
        mask += 0x100;
    }
    mask
}

} // verus!
