//! The persisted data model: configuration, collection registry, and
//! staking ledger, held as one explicit [`State`] value that the dispatcher
//! owns and every operation transforms.
//!
//! Each executable type has a view: strings become character sequences, the
//! two keyed stores become maps from key to value. Contracts are stated over
//! these views.

use vstd::prelude::*;

use crate::order::{lemma_lex_lt_total, lemma_lex_lt_transitive, lex_lt, str_lt};

verus! {

/// Reward cycle a collection gets when none is configured: one week.
pub const DEFAULT_CYCLE_SECONDS: u64 = 604_800;

/// Lockup period a collection gets when none is configured: thirty days.
pub const DEFAULT_LOCKUP_SECONDS: u64 = 2_592_000;

/// An amount of one denomination.
#[derive(Debug, PartialEq)]
pub struct Coin {
    pub denom: String,
    pub amount: u128,
}

/// View of a [`Coin`].
#[verifier::ext_equal]
pub struct CoinView {
    pub denom: Seq<char>,
    pub amount: u128,
}

impl View for Coin {
    type V = CoinView;

    open spec fn view(&self) -> CoinView {
        CoinView { denom: self.denom@, amount: self.amount }
    }
}

impl Coin {
    /// A copy with the same denomination and amount.
    pub fn duplicate(&self) -> (c: Coin)
        ensures
            c@ == self@,
    {
        Coin { denom: self.denom.clone(), amount: self.amount }
    }
}

/// Builds a coin from an amount and a denomination.
pub fn coin(amount: u128, denom: &str) -> (c: Coin)
    ensures
        c@.amount == amount,
        c@.denom == denom@,
{
    Coin { denom: denom.to_owned(), amount }
}

/// Decides whether two coins agree in both denomination and amount.
pub fn coin_eq(a: &Coin, b: &Coin) -> (r: bool)
    ensures
        r == (a@ == b@),
{
    a.amount == b.amount && a.denom == b.denom
}

/// The singleton configuration: the privileged owner, the fee charged for an
/// early unstake, and the fee balance collected so far.
#[derive(Debug, PartialEq)]
pub struct Config {
    pub owner: String,
    pub unstake_fee: Coin,
    pub fee_collected: u128,
}

/// View of a [`Config`].
#[verifier::ext_equal]
pub struct ConfigView {
    pub owner: Seq<char>,
    pub unstake_fee: CoinView,
    pub fee_collected: u128,
}

impl View for Config {
    type V = ConfigView;

    open spec fn view(&self) -> ConfigView {
        ConfigView {
            owner: self.owner@,
            unstake_fee: self.unstake_fee@,
            fee_collected: self.fee_collected,
        }
    }
}

/// One registered collection: its reward rate, reward cycle, whitelist flag,
/// capacity, lockup period, and reward-pool balance.
#[derive(Debug, PartialEq)]
pub struct Collection {
    pub reward: Coin,
    pub cycle: u64,
    pub is_whitelisted: bool,
    pub spots: u64,
    pub lockup_period: u64,
    pub pool_amount: u128,
}

/// View of a [`Collection`].
#[verifier::ext_equal]
pub struct CollectionView {
    pub reward: CoinView,
    pub cycle: u64,
    pub is_whitelisted: bool,
    pub spots: u64,
    pub lockup_period: u64,
    pub pool_amount: u128,
}

impl View for Collection {
    type V = CollectionView;

    open spec fn view(&self) -> CollectionView {
        CollectionView {
            reward: self.reward@,
            cycle: self.cycle,
            is_whitelisted: self.is_whitelisted,
            spots: self.spots,
            lockup_period: self.lockup_period,
            pool_amount: self.pool_amount,
        }
    }
}

impl Collection {
    /// A collection with no reward, default cycle and lockup, and an empty
    /// pool.
    pub fn default() -> (c: Collection)
        ensures
            c@.reward.amount == 0,
            c@.reward.denom == "inj"@,
            c@.cycle == DEFAULT_CYCLE_SECONDS,
            c@.is_whitelisted,
            c@.spots == 0,
            c@.lockup_period == DEFAULT_LOCKUP_SECONDS,
            c@.pool_amount == 0,
    {
        Collection {
            reward: coin(0, "inj"),
            cycle: DEFAULT_CYCLE_SECONDS,
            is_whitelisted: true,
            spots: 0,
            lockup_period: DEFAULT_LOCKUP_SECONDS,
            pool_amount: 0,
        }
    }

    pub fn new(
        reward: Coin,
        cycle: u64,
        is_whitelisted: bool,
        spots: u64,
        lockup_period: u64,
        pool_amount: u128,
    ) -> (c: Collection)
        ensures
            c@ == (CollectionView {
                reward: reward@,
                cycle,
                is_whitelisted,
                spots,
                lockup_period,
                pool_amount,
            }),
    {
        Collection { reward, cycle, is_whitelisted, spots, lockup_period, pool_amount }
    }
}

/// One deposited token's custody window and payment state. The sentinel
/// `end_timestamp == 0` means the token is still in custody.
#[derive(Debug, PartialEq)]
pub struct Staking {
    pub token_address: String,
    pub token_id: String,
    pub start_timestamp: u64,
    pub end_timestamp: u64,
    pub is_paid: bool,
}

/// View of a [`Staking`].
#[verifier::ext_equal]
pub struct StakingView {
    pub token_address: Seq<char>,
    pub token_id: Seq<char>,
    pub start_timestamp: u64,
    pub end_timestamp: u64,
    pub is_paid: bool,
}

impl View for Staking {
    type V = StakingView;

    open spec fn view(&self) -> StakingView {
        StakingView {
            token_address: self.token_address@,
            token_id: self.token_id@,
            start_timestamp: self.start_timestamp,
            end_timestamp: self.end_timestamp,
            is_paid: self.is_paid,
        }
    }
}

impl Staking {
    /// An empty record: no token, zero timestamps, unpaid.
    pub fn default() -> (s: Staking)
        ensures
            s@.token_address.len() == 0,
            s@.token_id.len() == 0,
            s@.start_timestamp == 0,
            s@.end_timestamp == 0,
            !s@.is_paid,
    {
        Staking {
            token_address: String::new(),
            token_id: String::new(),
            start_timestamp: 0,
            end_timestamp: 0,
            is_paid: false,
        }
    }

    /// A fresh record in custody: the window opens at `start_timestamp` and
    /// has no end yet.
    pub fn new(token_address: String, token_id: String, start_timestamp: u64, is_paid: bool) -> (s:
        Staking)
        ensures
            s@ == (StakingView {
                token_address: token_address@,
                token_id: token_id@,
                start_timestamp,
                end_timestamp: 0,
                is_paid,
            }),
    {
        Staking { token_address, token_id, start_timestamp, end_timestamp: 0, is_paid }
    }
}

/// A registry entry: one collection under its token-contract address.
pub struct CollectionEntry {
    pub address: String,
    pub collection: Collection,
}

impl View for CollectionEntry {
    type V = (Seq<char>, CollectionView);

    open spec fn view(&self) -> (Seq<char>, CollectionView) {
        (self.address@, self.collection@)
    }
}

/// A ledger entry: one staker's records, in append order.
pub struct LedgerEntry {
    pub owner: String,
    pub records: Vec<Staking>,
}

impl View for LedgerEntry {
    type V = (Seq<char>, Seq<StakingView>);

    open spec fn view(&self) -> (Seq<char>, Seq<StakingView>) {
        (self.owner@, records_view(self.records@))
    }
}

/// The views of a sequence of records.
pub open spec fn records_view(s: Seq<Staking>) -> Seq<StakingView> {
    s.map_values(|r: Staking| r@)
}

/// The association sequence of the registry.
pub open spec fn coll_assoc(s: Seq<CollectionEntry>) -> Seq<(Seq<char>, CollectionView)> {
    s.map_values(|e: CollectionEntry| e@)
}

/// The association sequence of the ledger.
pub open spec fn ledger_assoc(s: Seq<LedgerEntry>) -> Seq<(Seq<char>, Seq<StakingView>)> {
    s.map_values(|e: LedgerEntry| e@)
}

/// The map that an association sequence denotes; a later entry would win,
/// though well-formed states keep keys distinct.
pub open spec fn assoc_map<V>(s: Seq<(Seq<char>, V)>) -> Map<Seq<char>, V>
    decreases s.len(),
{
    if s.len() == 0 {
        Map::empty()
    } else {
        assoc_map(s.drop_last()).insert(s.last().0, s.last().1)
    }
}

/// No two entries share a key.
pub open spec fn keys_distinct<V>(s: Seq<(Seq<char>, V)>) -> bool {
    forall|i: int, j: int| 0 <= i < j < s.len() ==> (#[trigger] s[i]).0 != (#[trigger] s[j]).0
}

/// Some entry carries the key.
pub open spec fn has_key<V>(s: Seq<(Seq<char>, V)>, k: Seq<char>) -> bool {
    exists|i: int| 0 <= i < s.len() && (#[trigger] s[i]).0 == k
}

/// The denoted map contains exactly the keys of the sequence.
pub proof fn lemma_assoc_map_dom<V>(s: Seq<(Seq<char>, V)>, k: Seq<char>)
    ensures
        assoc_map(s).contains_key(k) <==> has_key(s, k),
    decreases s.len(),
{
    if s.len() > 0 {
        lemma_assoc_map_dom(s.drop_last(), k);
        if has_key(s, k) && s.last().0 != k {
            let i = choose|i: int| 0 <= i < s.len() && (#[trigger] s[i]).0 == k;
            assert(s.drop_last()[i] == s[i]);
        }
        if has_key(s.drop_last(), k) {
            let i = choose|i: int|
                0 <= i < s.drop_last().len() && (#[trigger] s.drop_last()[i]).0 == k;
            assert(s[i].0 == k);
        }
    }
}

/// With distinct keys, the denoted map sends each entry's key to its value.
pub proof fn lemma_assoc_map_index<V>(s: Seq<(Seq<char>, V)>, i: int)
    requires
        keys_distinct(s),
        0 <= i < s.len(),
    ensures
        assoc_map(s).contains_key(s[i].0),
        assoc_map(s)[s[i].0] == s[i].1,
    decreases s.len(),
{
    if i < s.len() - 1 {
        assert(keys_distinct(s.drop_last())) by {
            assert(forall|x: int, y: int|
                0 <= x < y < s.drop_last().len() ==> (#[trigger] s.drop_last()[x]).0 != (
                #[trigger] s.drop_last()[y]).0) by {
                assert(forall|x: int|
                    0 <= x < s.drop_last().len() ==> #[trigger] s.drop_last()[x] == s[x]);
            }
        }
        lemma_assoc_map_index(s.drop_last(), i);
        assert(s.drop_last()[i] == s[i]);
        assert(s[i].0 != s.last().0);
    }
}

/// Overwriting the value at one entry updates exactly that key in the map.
pub proof fn lemma_assoc_map_update<V>(s: Seq<(Seq<char>, V)>, i: int, v: V)
    requires
        keys_distinct(s),
        0 <= i < s.len(),
    ensures
        assoc_map(s.update(i, (s[i].0, v))) == assoc_map(s).insert(s[i].0, v),
        keys_distinct(s.update(i, (s[i].0, v))),
    decreases s.len(),
{
    let t = s.update(i, (s[i].0, v));
    assert(forall|x: int| 0 <= x < s.len() && x != i ==> #[trigger] t[x] == s[x]);
    if i == s.len() - 1 {
        assert(t.drop_last() =~= s.drop_last());
        assert(assoc_map(t) =~= assoc_map(s).insert(s[i].0, v));
    } else {
        assert(keys_distinct(s.drop_last())) by {
            assert(forall|x: int|
                0 <= x < s.drop_last().len() ==> #[trigger] s.drop_last()[x] == s[x]);
        }
        lemma_assoc_map_update(s.drop_last(), i, v);
        assert(t.drop_last() =~= s.drop_last().update(i, (s[i].0, v)));
        assert(t.last() == s.last());
        assert(s[i].0 != s.last().0);
        assert(assoc_map(t) =~= assoc_map(s).insert(s[i].0, v));
    }
}

/// Inserting an entry with a fresh key at any position adds exactly that key.
pub proof fn lemma_assoc_map_insert_at<V>(s: Seq<(Seq<char>, V)>, i: int, k: Seq<char>, v: V)
    requires
        !has_key(s, k),
        0 <= i <= s.len(),
    ensures
        assoc_map(s.insert(i, (k, v))) == assoc_map(s).insert(k, v),
    decreases s.len(),
{
    let t = s.insert(i, (k, v));
    if i == s.len() {
        assert(t.drop_last() =~= s);
    } else {
        assert(!has_key(s.drop_last(), k)) by {
            assert(forall|x: int|
                0 <= x < s.drop_last().len() ==> #[trigger] s.drop_last()[x] == s[x]);
        }
        lemma_assoc_map_insert_at(s.drop_last(), i, k, v);
        assert(t.drop_last() =~= s.drop_last().insert(i, (k, v)));
        assert(t.last() == s.last());
        assert(s.last().0 != k) by {
            assert(s[s.len() - 1].0 != k);
        }
        assert(assoc_map(t) =~= assoc_map(s).insert(k, v));
    }
}

/// The whole persisted state.
pub struct State {
    pub config: Config,
    pub collections: Vec<CollectionEntry>,
    pub stakings: Vec<LedgerEntry>,
}

/// View of the whole state: the configuration, the registry as a map from
/// collection address to collection, and the ledger as a map from staker to
/// record sequence.
#[verifier::ext_equal]
pub struct StateView {
    pub config: ConfigView,
    pub collections: Map<Seq<char>, CollectionView>,
    pub stakings: Map<Seq<char>, Seq<StakingView>>,
}

impl View for State {
    type V = StateView;

    open spec fn view(&self) -> StateView {
        StateView {
            config: self.config@,
            collections: assoc_map(coll_assoc(self.collections@)),
            stakings: assoc_map(ledger_assoc(self.stakings@)),
        }
    }
}

impl StateView {
    /// Every registered collection has a positive reward cycle, so the
    /// reward formula's division is defined.
    pub open spec fn collections_wf(self) -> bool {
        forall|a: Seq<char>|
            #[trigger] self.collections.contains_key(a) ==> self.collections[a].cycle >= 1
    }

    /// A record references a registered collection, a closed custody window
    /// never ends before it starts, and only a withdrawn record can be
    /// settled.
    pub open spec fn record_ok(self, r: StakingView) -> bool {
        &&& self.collections.contains_key(r.token_address)
        &&& (r.end_timestamp != 0 ==> r.start_timestamp <= r.end_timestamp)
        &&& (r.is_paid ==> r.end_timestamp != 0)
    }

    /// Every record in the ledger is sound, see [`StateView::record_ok`].
    pub open spec fn records_wf(self) -> bool {
        forall|o: Seq<char>, i: int|
            self.stakings.contains_key(o) && 0 <= i < self.stakings[o].len() ==> self.record_ok(
                #[trigger] self.stakings[o][i],
            )
    }

    pub open spec fn wf(self) -> bool {
        self.collections_wf() && self.records_wf()
    }
}

/// Registry entries in strictly ascending address order.
pub open spec fn entries_sorted(s: Seq<CollectionEntry>) -> bool {
    forall|i: int, j: int|
        0 <= i < j < s.len() ==> lex_lt(
            (#[trigger] s[i]).address@,
            (#[trigger] s[j]).address@,
        )
}

impl State {
    /// Registry entries stand in strictly ascending address order, so keys
    /// are distinct and the collections query lists them sorted.
    pub open spec fn collections_sorted(self) -> bool {
        entries_sorted(self.collections@)
    }

    /// No two ledger entries share an owner.
    pub open spec fn owners_distinct(self) -> bool {
        forall|i: int, j: int|
            0 <= i < j < self.stakings@.len() ==> (#[trigger] self.stakings@[i]).owner@ != (
            #[trigger] self.stakings@[j]).owner@
    }

    /// Representation and model well-formedness together. Established at
    /// initialization and preserved by every operation.
    pub open spec fn wf(self) -> bool {
        self.collections_sorted() && self.owners_distinct() && self@.wf()
    }

    /// Sortedness of the registry makes its keys distinct.
    pub proof fn lemma_collections_keys_distinct(self)
        requires
            self.collections_sorted(),
        ensures
            keys_distinct(coll_assoc(self.collections@)),
    {
        let s = coll_assoc(self.collections@);
        assert forall|i: int, j: int|
            0 <= i < j < s.len() implies (#[trigger] s[i]).0 != (#[trigger] s[j]).0 by {
            crate::order::lemma_lex_lt_total(
                self.collections@[i].address@,
                self.collections@[j].address@,
            );
        }
    }

    /// Distinct owners make the ledger's keys distinct.
    pub proof fn lemma_ledger_keys_distinct(self)
        requires
            self.owners_distinct(),
        ensures
            keys_distinct(ledger_assoc(self.stakings@)),
    {
        let s = ledger_assoc(self.stakings@);
        assert(forall|i: int, j: int|
            0 <= i < j < s.len() ==> (#[trigger] s[i]).0 != (#[trigger] s[j]).0);
    }
}

/// Well-formedness only concerns the registry and the ledger: a state that
/// differs from a well-formed one in its configuration alone is well-formed.
pub proof fn lemma_wf_after_config_change(pre: State, post: State)
    requires
        pre.wf(),
        post.collections == pre.collections,
        post.stakings == pre.stakings,
    ensures
        post.wf(),
{
    assert(post.collections_sorted());
    assert(post.owners_distinct());
    assert(post@.collections == pre@.collections);
    assert(post@.stakings == pre@.stakings);
    assert(post@.collections_wf());
    assert(post@.records_wf());
}

/// Finds the registry entry of an address, if any.
pub fn find_collection(entries: &Vec<CollectionEntry>, address: &String) -> (r: Option<usize>)
    ensures
        match r {
            Some(i) => i < entries@.len() && entries@[i as int].address@ == address@,
            None => !has_key(coll_assoc(entries@), address@),
        },
{
    let n = entries.len();
    let mut i: usize = 0;
    while i < n
        invariant
            i <= n,
            n == entries@.len(),
            forall|k: int| 0 <= k < i ==> (#[trigger] entries@[k]).address@ != address@,
        decreases n - i,
    {
        if entries[i].address == *address {
            return Some(i);
        }
        i = i + 1;
    }
    proof {
        assert(forall|k: int|
            0 <= k < coll_assoc(entries@).len() ==> (#[trigger] coll_assoc(entries@)[k]).0
                == entries@[k].address@);
    }
    None
}

/// Where a fresh address belongs in the sorted registry: the first position
/// whose entry orders after it.
pub fn insert_position(entries: &Vec<CollectionEntry>, address: &String) -> (pos: usize)
    requires
        entries_sorted(entries@),
        !has_key(coll_assoc(entries@), address@),
    ensures
        pos <= entries@.len(),
        forall|k: int| 0 <= k < pos ==> lex_lt((#[trigger] entries@[k]).address@, address@),
        forall|k: int|
            pos <= k < entries@.len() ==> lex_lt(address@, (#[trigger] entries@[k]).address@),
{
    let n = entries.len();
    let mut pos: usize = 0;
    while pos < n
        invariant_except_break
            pos <= n,
            n == entries@.len(),
            entries_sorted(entries@),
            !has_key(coll_assoc(entries@), address@),
            forall|k: int| 0 <= k < pos ==> lex_lt((#[trigger] entries@[k]).address@, address@),
        ensures
            pos <= n,
            n == entries@.len(),
            forall|k: int| 0 <= k < pos ==> lex_lt((#[trigger] entries@[k]).address@, address@),
            pos < n ==> lex_lt(address@, entries@[pos as int].address@),
        decreases n - pos,
    {
        if str_lt(address.as_str(), entries[pos].address.as_str()) {
            break;
        }
        proof {
            assert(coll_assoc(entries@)[pos as int].0 == entries@[pos as int].address@);
            lemma_lex_lt_total(address@, entries@[pos as int].address@);
        }
        pos = pos + 1;
    }
    proof {
        assert forall|k: int|
            pos <= k < entries@.len() implies lex_lt(
            address@,
            (#[trigger] entries@[k]).address@,
        ) by {
            if k > pos {
                lemma_lex_lt_transitive(
                    address@,
                    entries@[pos as int].address@,
                    entries@[k].address@,
                );
            }
        }
    }
    pos
}

/// An update of the registry alone that keeps cycles positive and can only
/// grow the key set keeps the state well-formed.
pub proof fn lemma_wf_after_registry_update(
    pre: State,
    post: State,
    address: Seq<char>,
    c: CollectionView,
)
    requires
        pre.wf(),
        post.stakings == pre.stakings,
        post.collections_sorted(),
        post@.collections == pre@.collections.insert(address, c),
        c.cycle >= 1,
    ensures
        post.wf(),
{
    assert(post.owners_distinct());
    assert(post@.stakings == pre@.stakings);
    assert forall|a: Seq<char>| #[trigger]
        post@.collections.contains_key(a) implies post@.collections[a].cycle >= 1 by {
        if a != address {
            assert(pre@.collections.contains_key(a));
        }
    }
    assert forall|o: Seq<char>, i: int|
        post@.stakings.contains_key(o) && 0 <= i < post@.stakings[o].len() implies post@.record_ok(
        #[trigger] post@.stakings[o][i],
    ) by {
        assert(pre@.stakings.contains_key(o));
        assert(pre@.record_ok(pre@.stakings[o][i]));
    }
}

/// An update of one owner's records that keeps every record sound keeps the
/// state well-formed.
pub proof fn lemma_wf_after_ledger_update(
    pre: State,
    post: State,
    owner: Seq<char>,
    recs: Seq<StakingView>,
)
    requires
        pre.wf(),
        post.collections == pre.collections,
        post.owners_distinct(),
        post@.stakings == pre@.stakings.insert(owner, recs),
        forall|i: int| 0 <= i < recs.len() ==> pre@.record_ok(#[trigger] recs[i]),
    ensures
        post.wf(),
{
    assert(post.collections_sorted());
    assert(post@.collections == pre@.collections);
    assert(post@.collections_wf());
    assert forall|o: Seq<char>, i: int|
        post@.stakings.contains_key(o) && 0 <= i < post@.stakings[o].len() implies post@.record_ok(
        #[trigger] post@.stakings[o][i],
    ) by {
        if o == owner {
            assert(pre@.record_ok(recs[i]));
        } else {
            assert(pre@.stakings.contains_key(o));
            assert(pre@.record_ok(pre@.stakings[o][i]));
        }
    }
}

/// Replaces one record in one owner's ledger entry; every other entry and
/// the entry's owner stay as they were.
pub fn set_record(stakings: &mut Vec<LedgerEntry>, oi: usize, ri: usize, rec: Staking)
    requires
        oi < old(stakings)@.len(),
        ri < old(stakings)@[oi as int].records@.len(),
    ensures
        final(stakings)@.len() == old(stakings)@.len(),
        forall|k: int|
            0 <= k < old(stakings)@.len() && k != oi ==> #[trigger] final(stakings)@[k] == old(
                stakings,
            )@[k],
        final(stakings)@[oi as int].owner == old(stakings)@[oi as int].owner,
        final(stakings)@[oi as int].records@ == old(stakings)@[oi as int].records@.update(
            ri as int,
            rec,
        ),
{
    let mut entry = stakings.remove(oi);
    let _replaced = entry.records.remove(ri);
    entry.records.insert(ri, rec);
    stakings.insert(oi, entry);
    proof {
        assert(stakings@ =~= old(stakings)@.update(oi as int, stakings@[oi as int]));
        assert(stakings@[oi as int].records@ =~= old(stakings)@[oi as int].records@.update(
            ri as int,
            rec,
        ));
    }
}

/// Appends one record to one owner's ledger entry; every other entry and
/// the entry's owner stay as they were.
pub fn push_record(stakings: &mut Vec<LedgerEntry>, oi: usize, rec: Staking)
    requires
        oi < old(stakings)@.len(),
    ensures
        final(stakings)@.len() == old(stakings)@.len(),
        forall|k: int|
            0 <= k < old(stakings)@.len() && k != oi ==> #[trigger] final(stakings)@[k] == old(
                stakings,
            )@[k],
        final(stakings)@[oi as int].owner == old(stakings)@[oi as int].owner,
        final(stakings)@[oi as int].records@ == old(stakings)@[oi as int].records@.push(rec),
{
    let mut entry = stakings.remove(oi);
    entry.records.push(rec);
    stakings.insert(oi, entry);
    proof {
        assert(stakings@ =~= old(stakings)@.update(oi as int, stakings@[oi as int]));
    }
}

/// Finds the ledger entry of an owner, if any.
pub fn find_ledger(entries: &Vec<LedgerEntry>, owner: &String) -> (r: Option<usize>)
    ensures
        match r {
            Some(i) => i < entries@.len() && entries@[i as int].owner@ == owner@,
            None => !has_key(ledger_assoc(entries@), owner@),
        },
{
    let n = entries.len();
    let mut i: usize = 0;
    while i < n
        invariant
            i <= n,
            n == entries@.len(),
            forall|k: int| 0 <= k < i ==> (#[trigger] entries@[k]).owner@ != owner@,
        decreases n - i,
    {
        if entries[i].owner == *owner {
            return Some(i);
        }
        i = i + 1;
    }
    proof {
        assert(forall|k: int|
            0 <= k < ledger_assoc(entries@).len() ==> (#[trigger] ledger_assoc(entries@)[k]).0
                == entries@[k].owner@);
    }
    None
}

} // verus!
