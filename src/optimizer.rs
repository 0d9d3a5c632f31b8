use vstd::prelude::*;

use crate::reward::{calculate_rewards, reward_amount, reward_fits};
use crate::types::{OptimizerError, Strategy, Transfer, UserPosition};

verus! {

/// Smallest deposit accepted into any strategy.
pub const MIN_DEPOSIT_AMOUNT: u128 = 1_000_000_000_000_000_000_000;

/// The positions of one account, in the order they were opened.
struct AccountPositions {
    account: String,
    positions: Vec<UserPosition>,
}

/// Sum of the amounts of `ps`.
pub open spec fn sum_amounts(ps: Seq<UserPosition>) -> int
    decreases ps.len(),
{
    if ps.len() == 0 {
        0
    } else {
        sum_amounts(ps.drop_last()) + ps.last().amount
    }
}

/// Sum of the value locked in each strategy of `ss`.
pub open spec fn sum_tvl(ss: Seq<Strategy>) -> int
    decreases ss.len(),
{
    if ss.len() == 0 {
        0
    } else {
        sum_tvl(ss.drop_last()) + ss.last().tvl
    }
}

spec fn ledger_sum(entries: Seq<AccountPositions>) -> int
    decreases entries.len(),
{
    if entries.len() == 0 {
        0
    } else {
        ledger_sum(entries.drop_last()) + sum_amounts(entries.last().positions@)
    }
}

spec fn accounts_unique(entries: Seq<AccountPositions>) -> bool {
    forall|i: int, j: int|
        0 <= i < entries.len() && 0 <= j < entries.len() && i != j
            ==> #[trigger] entries[i].account@ != #[trigger] entries[j].account@
}

spec fn positions_in(entries: Seq<AccountPositions>, account: Seq<char>) -> Seq<UserPosition> {
    if exists|i: int| 0 <= i < entries.len() && #[trigger] entries[i].account@ == account {
        let i = choose|i: int| 0 <= i < entries.len() && #[trigger] entries[i].account@ == account;
        entries[i].positions@
    } else {
        Seq::empty()
    }
}

proof fn lemma_positions_at(entries: Seq<AccountPositions>, k: int)
    requires
        accounts_unique(entries),
        0 <= k < entries.len(),
    ensures
        positions_in(entries, entries[k].account@) == entries[k].positions@,
{
    let a = entries[k].account@;
    assert(entries[k].account@ == a);
    let i = choose|i: int| 0 <= i < entries.len() && #[trigger] entries[i].account@ == a;
    assert(i == k);
}

proof fn lemma_sum_amounts_push(ps: Seq<UserPosition>, p: UserPosition)
    ensures
        sum_amounts(ps.push(p)) == sum_amounts(ps) + p.amount,
{
    assert(ps.push(p).drop_last() =~= ps);
}

proof fn lemma_sum_amounts_update(ps: Seq<UserPosition>, k: int, p: UserPosition)
    requires
        0 <= k < ps.len(),
    ensures
        sum_amounts(ps.update(k, p)) == sum_amounts(ps) - ps[k].amount + p.amount,
    decreases ps.len(),
{
    let qs = ps.update(k, p);
    if k == ps.len() - 1 {
        assert(qs.drop_last() =~= ps.drop_last());
    } else {
        assert(qs.drop_last() =~= ps.drop_last().update(k, p));
        lemma_sum_amounts_update(ps.drop_last(), k, p);
    }
}

proof fn lemma_sum_tvl_update(ss: Seq<Strategy>, k: int, s: Strategy)
    requires
        0 <= k < ss.len(),
    ensures
        sum_tvl(ss.update(k, s)) == sum_tvl(ss) - ss[k].tvl + s.tvl,
    decreases ss.len(),
{
    let ts = ss.update(k, s);
    if k == ss.len() - 1 {
        assert(ts.drop_last() =~= ss.drop_last());
    } else {
        assert(ts.drop_last() =~= ss.drop_last().update(k, s));
        lemma_sum_tvl_update(ss.drop_last(), k, s);
    }
}

proof fn lemma_sum_tvl_push(ss: Seq<Strategy>, s: Strategy)
    ensures
        sum_tvl(ss.push(s)) == sum_tvl(ss) + s.tvl,
{
    assert(ss.push(s).drop_last() =~= ss);
}

proof fn lemma_tvl_le_sum(ss: Seq<Strategy>, k: int)
    requires
        0 <= k < ss.len(),
    ensures
        ss[k].tvl <= sum_tvl(ss),
    decreases ss.len(),
{
    if k < ss.len() - 1 {
        lemma_tvl_le_sum(ss.drop_last(), k);
    }
    lemma_sum_tvl_nonneg(ss.drop_last());
}

proof fn lemma_sum_tvl_nonneg(ss: Seq<Strategy>)
    ensures
        sum_tvl(ss) >= 0,
    decreases ss.len(),
{
    if ss.len() > 0 {
        lemma_sum_tvl_nonneg(ss.drop_last());
    }
}

proof fn lemma_ledger_sum_update(entries: Seq<AccountPositions>, k: int, e: AccountPositions)
    requires
        0 <= k < entries.len(),
    ensures
        ledger_sum(entries.update(k, e)) == ledger_sum(entries) - sum_amounts(entries[k].positions@)
            + sum_amounts(e.positions@),
    decreases entries.len(),
{
    let fs = entries.update(k, e);
    if k == entries.len() - 1 {
        assert(fs.drop_last() =~= entries.drop_last());
    } else {
        assert(fs.drop_last() =~= entries.drop_last().update(k, e));
        lemma_ledger_sum_update(entries.drop_last(), k, e);
    }
}

proof fn lemma_ledger_sum_push(entries: Seq<AccountPositions>, e: AccountPositions)
    ensures
        ledger_sum(entries.push(e)) == ledger_sum(entries) + sum_amounts(e.positions@),
{
    assert(entries.push(e).drop_last() =~= entries);
}

proof fn lemma_positions_after_update(entries: Seq<AccountPositions>, k: int, e: AccountPositions)
    requires
        accounts_unique(entries),
        0 <= k < entries.len(),
        e.account@ == entries[k].account@,
    ensures
        accounts_unique(entries.update(k, e)),
        forall|a: Seq<char>|
            #[trigger] positions_in(entries.update(k, e), a) == if a == e.account@ {
                e.positions@
            } else {
                positions_in(entries, a)
            },
{
    let fs = entries.update(k, e);
    assert forall|i: int, j: int|
        0 <= i < fs.len() && 0 <= j < fs.len() && i != j implies #[trigger] fs[i].account@
        != #[trigger] fs[j].account@ by {
        assert(entries[i].account@ != entries[j].account@);
    }
    assert forall|a: Seq<char>|
        #[trigger] positions_in(fs, a) == if a == e.account@ {
            e.positions@
        } else {
            positions_in(entries, a)
        } by {
        if a == e.account@ {
            lemma_positions_at(fs, k);
        } else if exists|i: int| 0 <= i < entries.len() && #[trigger] entries[i].account@ == a {
            let i = choose|i: int| 0 <= i < entries.len() && #[trigger] entries[i].account@ == a;
            lemma_positions_at(entries, i);
            lemma_positions_at(fs, i);
        } else {
            assert forall|i: int| 0 <= i < fs.len() implies #[trigger] fs[i].account@ != a by {
                assert(entries[i].account@ != a);
            }
        }
    }
}

proof fn lemma_positions_after_push(entries: Seq<AccountPositions>, e: AccountPositions)
    requires
        accounts_unique(entries),
        forall|i: int| 0 <= i < entries.len() ==> #[trigger] entries[i].account@ != e.account@,
    ensures
        accounts_unique(entries.push(e)),
        forall|a: Seq<char>|
            #[trigger] positions_in(entries.push(e), a) == if a == e.account@ {
                e.positions@
            } else {
                positions_in(entries, a)
            },
{
    let fs = entries.push(e);
    assert forall|i: int, j: int|
        0 <= i < fs.len() && 0 <= j < fs.len() && i != j implies #[trigger] fs[i].account@
        != #[trigger] fs[j].account@ by {
        if i < entries.len() && j < entries.len() {
            assert(entries[i].account@ != entries[j].account@);
        }
    }
    assert forall|a: Seq<char>|
        #[trigger] positions_in(fs, a) == if a == e.account@ {
            e.positions@
        } else {
            positions_in(entries, a)
        } by {
        if a == e.account@ {
            lemma_positions_at(fs, entries.len() as int);
        } else if exists|i: int| 0 <= i < entries.len() && #[trigger] entries[i].account@ == a {
            let i = choose|i: int| 0 <= i < entries.len() && #[trigger] entries[i].account@ == a;
            lemma_positions_at(entries, i);
            lemma_positions_at(fs, i);
        } else {
            assert forall|i: int| 0 <= i < fs.len() implies #[trigger] fs[i].account@ != a by {
                if i < entries.len() {
                    assert(entries[i].account@ != a);
                }
            }
        }
    }
}

/// Sum of the amounts of the positions of `ps` that reference strategy `sid`.
pub open spec fn sum_amounts_in(ps: Seq<UserPosition>, sid: int) -> int
    decreases ps.len(),
{
    if ps.len() == 0 {
        0
    } else {
        sum_amounts_in(ps.drop_last(), sid) + if ps.last().strategy_id == sid {
            ps.last().amount as int
        } else {
            0
        }
    }
}

spec fn ledger_sum_in(entries: Seq<AccountPositions>, sid: int) -> int
    decreases entries.len(),
{
    if entries.len() == 0 {
        0
    } else {
        ledger_sum_in(entries.drop_last(), sid) + sum_amounts_in(entries.last().positions@, sid)
    }
}

proof fn lemma_sum_amounts_in_push(ps: Seq<UserPosition>, p: UserPosition)
    ensures
        forall|sid: int|
            #[trigger] sum_amounts_in(ps.push(p), sid) == sum_amounts_in(ps, sid) + if p.strategy_id
                == sid {
                p.amount as int
            } else {
                0
            },
{
    assert(ps.push(p).drop_last() =~= ps);
}

proof fn lemma_sum_amounts_in_update(ps: Seq<UserPosition>, k: int, p: UserPosition)
    requires
        0 <= k < ps.len(),
        p.amount == ps[k].amount,
        p.strategy_id == ps[k].strategy_id,
    ensures
        forall|sid: int| #[trigger] sum_amounts_in(ps.update(k, p), sid) == sum_amounts_in(ps, sid),
    decreases ps.len(),
{
    let qs = ps.update(k, p);
    if k == ps.len() - 1 {
        assert(qs.drop_last() =~= ps.drop_last());
    } else {
        assert(qs.drop_last() =~= ps.drop_last().update(k, p));
        lemma_sum_amounts_in_update(ps.drop_last(), k, p);
    }
    assert forall|sid: int| #[trigger] sum_amounts_in(qs, sid) == sum_amounts_in(ps, sid) by {
        assert(sum_amounts_in(qs.drop_last(), sid) == sum_amounts_in(ps.drop_last(), sid));
    }
}

proof fn lemma_ledger_sum_in_update(entries: Seq<AccountPositions>, k: int, e: AccountPositions)
    requires
        0 <= k < entries.len(),
    ensures
        forall|sid: int|
            #[trigger] ledger_sum_in(entries.update(k, e), sid) == ledger_sum_in(entries, sid)
                - sum_amounts_in(entries[k].positions@, sid) + sum_amounts_in(e.positions@, sid),
    decreases entries.len(),
{
    let fs = entries.update(k, e);
    if k == entries.len() - 1 {
        assert(fs.drop_last() =~= entries.drop_last());
    } else {
        assert(fs.drop_last() =~= entries.drop_last().update(k, e));
        lemma_ledger_sum_in_update(entries.drop_last(), k, e);
    }
    assert forall|sid: int|
        #[trigger] ledger_sum_in(fs, sid) == ledger_sum_in(entries, sid) - sum_amounts_in(
            entries[k].positions@,
            sid,
        ) + sum_amounts_in(e.positions@, sid) by {
        if k < entries.len() - 1 {
            assert(ledger_sum_in(fs.drop_last(), sid) == ledger_sum_in(entries.drop_last(), sid)
                - sum_amounts_in(entries[k].positions@, sid) + sum_amounts_in(e.positions@, sid));
        }
    }
}

proof fn lemma_ledger_sum_in_push(entries: Seq<AccountPositions>, e: AccountPositions)
    ensures
        forall|sid: int|
            #[trigger] ledger_sum_in(entries.push(e), sid) == ledger_sum_in(entries, sid)
                + sum_amounts_in(e.positions@, sid),
{
    assert(entries.push(e).drop_last() =~= entries);
}

proof fn lemma_sum_amounts_in_unused(ps: Seq<UserPosition>, sid: int)
    requires
        forall|j: int| 0 <= j < ps.len() ==> (#[trigger] ps[j]).strategy_id < sid,
    ensures
        sum_amounts_in(ps, sid) == 0,
    decreases ps.len(),
{
    if ps.len() > 0 {
        let qs = ps.drop_last();
        assert forall|j: int| 0 <= j < qs.len() implies (#[trigger] qs[j]).strategy_id < sid by {
            assert(qs[j] == ps[j]);
        }
        lemma_sum_amounts_in_unused(qs, sid);
    }
}

proof fn lemma_ledger_sum_in_unused(entries: Seq<AccountPositions>, sid: int)
    requires
        forall|i: int, j: int|
            0 <= i < entries.len() && 0 <= j < entries[i].positions@.len()
                ==> (#[trigger] entries[i].positions@[j]).strategy_id < sid,
    ensures
        ledger_sum_in(entries, sid) == 0,
    decreases entries.len(),
{
    if entries.len() > 0 {
        let fs = entries.drop_last();
        let last = entries.len() - 1;
        assert forall|j: int| 0 <= j < entries[last].positions@.len() implies (
        #[trigger] entries[last].positions@[j]).strategy_id < sid by {
        }
        lemma_sum_amounts_in_unused(entries[last].positions@, sid);
        assert forall|i: int, j: int|
            0 <= i < fs.len() && 0 <= j < fs[i].positions@.len() implies (
            #[trigger] fs[i].positions@[j]).strategy_id < sid by {
            assert(fs[i] == entries[i]);
        }
        lemma_ledger_sum_in_unused(fs, sid);
    }
}

/// The ledger: a registry of strategies whose identifiers are their indices, and
/// the positions of each account.
pub struct YieldOptimizer {
    owner_id: String,
    strategies: Vec<Strategy>,
    user_positions: Vec<AccountPositions>,
    total_tvl: u128,
    strategy_count: u64,
    governance_token: String,
    min_deposit_amount: u128,
}

impl YieldOptimizer {
    /// The account allowed to change the registry.
    pub closed spec fn owner(&self) -> Seq<char> {
        self.owner_id@
    }

    /// The account of the reward token.
    pub closed spec fn reward_token(&self) -> Seq<char> {
        self.governance_token@
    }

    /// The strategies, the one with identifier `i` at index `i`.
    pub closed spec fn strategies(&self) -> Seq<Strategy> {
        self.strategies@
    }

    /// The positions of `account`, oldest first; empty for an account that never
    /// deposited.
    pub closed spec fn positions(&self, account: Seq<char>) -> Seq<UserPosition> {
        positions_in(self.user_positions@, account)
    }

    /// The value locked over all strategies.
    pub closed spec fn total(&self) -> u128 {
        self.total_tvl
    }

    /// Sum of the amounts of all positions of all accounts.
    pub closed spec fn deposited(&self) -> int {
        ledger_sum(self.user_positions@)
    }

    /// Sum of the amounts of all positions that reference strategy `sid`.
    pub closed spec fn deposited_in(&self, sid: int) -> int {
        ledger_sum_in(self.user_positions@, sid)
    }

    /// The ledger of `self` and of `other` hold the same positions.
    pub open spec fn same_positions(&self, other: &YieldOptimizer) -> bool {
        forall|a: Seq<char>| #[trigger] self.positions(a) == other.positions(a)
    }

    /// The invariant kept by every operation.
    pub closed spec fn wf(&self) -> bool {
        let entries = self.user_positions@;
        &&& self.strategy_count == self.strategies@.len()
        &&& self.min_deposit_amount == MIN_DEPOSIT_AMOUNT
        &&& self.total_tvl == sum_tvl(self.strategies@)
        &&& self.total_tvl == ledger_sum(entries)
        &&& forall|j: int|
            0 <= j < self.strategies@.len() ==> (#[trigger] self.strategies@[j]).tvl == ledger_sum_in(
                entries,
                j,
            )
        &&& accounts_unique(entries)
        &&& forall|i: int| 0 <= i < entries.len() ==> #[trigger] entries[i].positions@.len() > 0
        &&& forall|i: int, j: int|
            0 <= i < entries.len() && 0 <= j < entries[i].positions@.len()
                ==> (#[trigger] entries[i].positions@[j]).strategy_id < self.strategies@.len()
    }

    /// In every state that the operations reach, the value locked over all
    /// strategies is both the sum of every deposit made and the sum of the value
    /// locked in each strategy.
    pub proof fn lemma_total_tvl_is_sum_of_deposits(&self)
        requires
            self.wf(),
        ensures
            self.total() == self.deposited(),
            self.total() == sum_tvl(self.strategies()),
    {
    }

    /// In every state that the operations reach, the value locked in each
    /// strategy is the sum of the amounts of the positions that reference it.
    pub proof fn lemma_strategy_tvl_is_sum_of_its_positions(&self, sid: int)
        requires
            self.wf(),
            0 <= sid < self.strategies().len(),
        ensures
            self.strategies()[sid].tvl == self.deposited_in(sid),
    {
    }

    /// A ledger owned by `owner_id` with no strategy and no position, unless
    /// `already_initialized` says that the host holds one already.
    pub fn new(owner_id: String, governance_token: String, already_initialized: bool) -> (r: Result<
        YieldOptimizer,
        OptimizerError,
    >)
        ensures
            already_initialized ==> r == Err::<YieldOptimizer, OptimizerError>(
                OptimizerError::AlreadyInitialized,
            ),
            !already_initialized ==> r is Ok,
            r matches Ok(y) ==> {
                &&& y.wf()
                &&& y.owner() == owner_id@
                &&& y.reward_token() == governance_token@
                &&& y.strategies() == Seq::<Strategy>::empty()
                &&& y.total() == 0
                &&& forall|a: Seq<char>| #[trigger] y.positions(a) == Seq::<UserPosition>::empty()
            },
    {
        if already_initialized {
            return Err(OptimizerError::AlreadyInitialized);
        }
        Ok(YieldOptimizer {
            owner_id,
            strategies: Vec::new(),
            user_positions: Vec::new(),
            total_tvl: 0,
            strategy_count: 0,
            governance_token,
            min_deposit_amount: MIN_DEPOSIT_AMOUNT,
        })
    }
    /// Index of the entry of `account` in the ledger, if it has one.
    fn find_account(&self, account: &String) -> (r: Option<usize>)
        ensures
            match r {
                Some(k) => k < self.user_positions@.len() && self.user_positions@[k as int].account@
                    == account@,
                None => forall|i: int|
                    0 <= i < self.user_positions@.len()
                        ==> #[trigger] self.user_positions@[i].account@ != account@,
            },
    {
        let mut i: usize = 0;
        while i < self.user_positions.len()
            invariant
                i <= self.user_positions@.len(),
                forall|j: int| 0 <= j < i ==> #[trigger] self.user_positions@[j].account@ != account@,
            decreases self.user_positions@.len() - i,
        {
            if self.user_positions[i].account == *account {
                return Some(i);
            }
            i = i + 1;
        }
        None
    }

    /// Records a deposit of `amount` by `caller` into strategy `strategy_id` at
    /// time `now`.
    ///
    /// Refused, in this order of checks, when the amount is below the global
    /// minimum, the strategy does not exist, it is inactive, the amount is below
    /// its own minimum, or the total value locked would leave 128 bits.
    pub fn deposit(&mut self, caller: &String, strategy_id: u64, amount: u128, now: u64) -> (r:
        Result<(), OptimizerError>)
        requires
            old(self).wf(),
        ensures
            final(self).wf(),
            amount < MIN_DEPOSIT_AMOUNT ==> r == Err::<(), OptimizerError>(
                OptimizerError::DepositTooSmall,
            ),
            amount >= MIN_DEPOSIT_AMOUNT && strategy_id >= old(self).strategies().len() ==> r
                == Err::<(), OptimizerError>(OptimizerError::StrategyNotFound),
            amount >= MIN_DEPOSIT_AMOUNT && strategy_id < old(self).strategies().len() ==> {
                let s = old(self).strategies()[strategy_id as int];
                &&& !s.is_active ==> r == Err::<(), OptimizerError>(
                    OptimizerError::StrategyInactive,
                )
                &&& s.is_active && amount < s.min_deposit ==> r == Err::<(), OptimizerError>(
                    OptimizerError::DepositTooSmall,
                )
                &&& s.is_active && amount >= s.min_deposit && old(self).total() + amount
                    > u128::MAX ==> r == Err::<(), OptimizerError>(OptimizerError::Overflow)
                &&& s.is_active && amount >= s.min_deposit && old(self).total() + amount
                    <= u128::MAX ==> r is Ok
            },
            amount < MIN_DEPOSIT_AMOUNT || (strategy_id < old(self).strategies().len() && amount
                < old(self).strategies()[strategy_id as int].min_deposit) ==> r is Err
                && *final(self) == *old(self),
            r is Err ==> *final(self) == *old(self),
            r is Ok ==> {
                &&& final(self).strategies().len() == old(self).strategies().len()
                &&& final(self).strategies()[strategy_id as int].tvl == old(self).strategies()[strategy_id as int].tvl
                    + amount
                &&& forall|j: int|
                    0 <= j < old(self).strategies().len() && j != strategy_id ==> (#[trigger] final(self).strategies()[j]).tvl
                        == old(self).strategies()[j].tvl
            },
            r is Ok ==> {
                let s = old(self).strategies()[strategy_id as int];
                &&& final(self).total() == old(self).total() + amount
                &&& final(self).deposited() == old(self).deposited() + amount
                &&& final(self).strategies() == old(self).strategies().update(
                    strategy_id as int,
                    Strategy { tvl: (s.tvl + amount) as u128, ..s },
                )
                &&& final(self).positions(caller@) == old(self).positions(caller@).push(
                    UserPosition {
                        amount,
                        strategy_id,
                        rewards_claimed: 0,
                        deposit_timestamp: now,
                    },
                )
                &&& forall|a: Seq<char>|
                    a != caller@ ==> #[trigger] final(self).positions(a) == old(self).positions(a)
                &&& final(self).owner() == old(self).owner()
                &&& final(self).reward_token() == old(self).reward_token()
            },
    {
        if amount < self.min_deposit_amount {
            return Err(OptimizerError::DepositTooSmall);
        }
        if strategy_id >= self.strategy_count {
            return Err(OptimizerError::StrategyNotFound);
        }
        let idx = strategy_id as usize;
        assert(self.strategies.len() == self.strategies@.len());
        assert(idx as int == strategy_id as int);
        if !self.strategies[idx].is_active {
            return Err(OptimizerError::StrategyInactive);
        }
        if amount < self.strategies[idx].min_deposit {
            return Err(OptimizerError::DepositTooSmall);
        }
        if amount > u128::MAX - self.total_tvl {
            return Err(OptimizerError::Overflow);
        }
        let ghost old_entries = self.user_positions@;
        let ghost old_strategies = self.strategies@;
        proof {
            lemma_tvl_le_sum(old_strategies, idx as int);
        }
        let position = UserPosition {
            amount,
            strategy_id,
            rewards_claimed: 0,
            deposit_timestamp: now,
        };
        match self.find_account(caller) {
            Some(k) => {
                self.user_positions[k].positions.push(position);
                proof {
                    let e = self.user_positions@[k as int];
                    assert(self.user_positions@ == old_entries.update(k as int, e));
                    lemma_positions_at(old_entries, k as int);
                    lemma_positions_after_update(old_entries, k as int, e);
                    lemma_ledger_sum_update(old_entries, k as int, e);
                    lemma_sum_amounts_push(old_entries[k as int].positions@, position);
                    lemma_ledger_sum_in_update(old_entries, k as int, e);
                    lemma_sum_amounts_in_push(old_entries[k as int].positions@, position);
                }
            },
            None => {
                let mut ps: Vec<UserPosition> = Vec::new();
                ps.push(position);
                let entry = AccountPositions { account: caller.clone(), positions: ps };
                proof {
                    lemma_positions_after_push(old_entries, entry);
                    lemma_ledger_sum_push(old_entries, entry);
                    lemma_sum_amounts_push(Seq::empty(), position);
                    lemma_ledger_sum_in_push(old_entries, entry);
                    lemma_sum_amounts_in_push(Seq::empty(), position);
                    assert(Seq::<UserPosition>::empty().push(position) =~= ps@);
                }
                self.user_positions.push(entry);
            },
        }
        let tvl = self.strategies[idx].tvl;
        self.strategies[idx].tvl = tvl + amount;
        proof {
            lemma_sum_tvl_update(old_strategies, idx as int, self.strategies@[idx as int]);
        }
        self.total_tvl = self.total_tvl + amount;
        Ok(())
    }

    /// Registers a new strategy on behalf of `caller` at time `now`, with no value
    /// locked, and returns its identifier: the number of strategies before it.
    ///
    /// Refused when `caller` is not the owner, or when no identifier is left.
    pub fn add_strategy(
        &mut self,
        caller: &String,
        name: String,
        protocol: String,
        apy: u64,
        min_deposit: u128,
        now: u64,
    ) -> (r: Result<u64, OptimizerError>)
        requires
            old(self).wf(),
        ensures
            final(self).wf(),
            caller@ != old(self).owner() ==> r == Err::<u64, OptimizerError>(
                OptimizerError::Unauthorized,
            ),
            caller@ == old(self).owner() && old(self).strategies().len() >= u64::MAX ==> r == Err::<
                u64,
                OptimizerError,
            >(OptimizerError::Overflow),
            caller@ == old(self).owner() && old(self).strategies().len() < u64::MAX ==> r == Ok::<
                u64,
                OptimizerError,
            >(old(self).strategies().len() as u64),
            r is Ok ==> caller@ == old(self).owner(),
            r is Err ==> *final(self) == *old(self),
            r is Ok ==> {
                &&& final(self).strategies() == old(self).strategies().push(
                    Strategy {
                        name,
                        protocol,
                        apy,
                        tvl: 0,
                        min_deposit,
                        is_active: true,
                        last_update: now,
                    },
                )
                &&& final(self).total() == old(self).total()
                &&& final(self).same_positions(old(self))
                &&& final(self).owner() == old(self).owner()
                &&& final(self).reward_token() == old(self).reward_token()
            },
    {
        if !(*caller == self.owner_id) {
            return Err(OptimizerError::Unauthorized);
        }
        if self.strategy_count == u64::MAX {
            return Err(OptimizerError::Overflow);
        }
        let id = self.strategy_count;
        let strategy = Strategy {
            name,
            protocol,
            apy,
            tvl: 0,
            min_deposit,
            is_active: true,
            last_update: now,
        };
        proof {
            lemma_sum_tvl_push(self.strategies@, strategy);
            lemma_ledger_sum_in_unused(self.user_positions@, self.strategies@.len() as int);
        }
        self.strategies.push(strategy);
        self.strategy_count = id + 1;
        Ok(id)
    }

    /// Pays `caller` the reward accrued by its position `position_index` from the
    /// time of the deposit to `now`, adds it to what the position has claimed,
    /// and returns the transfer for the host to make.
    ///
    /// Refused when `caller` has no position, the index is out of range, the
    /// clock stands before the deposit, or the reward or the claimed total leave
    /// 128 bits.
    ///
    /// Accrual always runs from the deposit time, so each claim pays the whole
    /// period since the deposit again. The claimed total is recorded before the
    /// host makes the transfer, and nothing here reverses it if the transfer
    /// later fails: the ledger commits first and the payment is best effort.
    pub fn claim_rewards(&mut self, caller: &String, position_index: u64, now: u64) -> (r: Result<
        Transfer,
        OptimizerError,
    >)
        requires
            old(self).wf(),
        ensures
            final(self).wf(),
            old(self).positions(caller@).len() == 0 ==> (r is Err && r->Err_0 == OptimizerError::NoPositions),
            old(self).positions(caller@).len() > 0 && position_index >= old(self).positions(
                caller@,
            ).len() ==> (r is Err && r->Err_0 == OptimizerError::InvalidIndex),
            position_index >= old(self).positions(caller@).len() ==> r is Err && *final(self)
                == *old(self),
            position_index < old(self).positions(caller@).len() ==> {
                let p = old(self).positions(caller@)[position_index as int];
                let apy = old(self).strategies()[p.strategy_id as int].apy;
                let elapsed = (now - p.deposit_timestamp) as nat;
                let reward = reward_amount(p.amount as nat, apy as nat, elapsed);
                &&& now < p.deposit_timestamp ==> (r is Err && r->Err_0 == OptimizerError::Overflow)
                &&& now >= p.deposit_timestamp && !reward_fits(p.amount as nat, apy as nat, elapsed)
                    ==> (r is Err && r->Err_0 == OptimizerError::Overflow)
                &&& now >= p.deposit_timestamp && reward_fits(p.amount as nat, apy as nat, elapsed)
                    && p.rewards_claimed + reward > u128::MAX ==> (r is Err && r->Err_0 == OptimizerError::Overflow)
                &&& now >= p.deposit_timestamp && reward_fits(p.amount as nat, apy as nat, elapsed)
                    && p.rewards_claimed + reward <= u128::MAX ==> (r is Ok && r->Ok_0.receiver@ == caller@ && r->Ok_0.amount == reward)
                &&& r is Ok ==> final(self).positions(caller@) == old(self).positions(
                    caller@,
                ).update(
                    position_index as int,
                    UserPosition { rewards_claimed: (p.rewards_claimed + reward) as u128, ..p },
                )
            },
            r is Err ==> *final(self) == *old(self),
            r is Ok ==> {
                &&& forall|a: Seq<char>|
                    a != caller@ ==> #[trigger] final(self).positions(a) == old(self).positions(a)
                &&& final(self).strategies() == old(self).strategies()
                &&& final(self).total() == old(self).total()
                &&& final(self).owner() == old(self).owner()
                &&& final(self).reward_token() == old(self).reward_token()
            },
    {
        let k = match self.find_account(caller) {
            Some(k) => k,
            None => return Err(OptimizerError::NoPositions),
        };
        let ghost old_entries = self.user_positions@;
        proof {
            lemma_positions_at(old_entries, k as int);
        }
        let n = self.user_positions[k].positions.len();
        if position_index as u128 >= n as u128 {
            return Err(OptimizerError::InvalidIndex);
        }
        let i = position_index as usize;
        let p = self.user_positions[k].positions[i];
        assert(p == old(self).positions(caller@)[position_index as int]);
        assert(p.strategy_id < self.strategies@.len());
        assert(self.strategies.len() == self.strategies@.len());
        if p.strategy_id >= self.strategy_count {
            return Err(OptimizerError::StrategyNotFound);
        }
        let apy = self.strategies[p.strategy_id as usize].apy;
        if now < p.deposit_timestamp {
            return Err(OptimizerError::Overflow);
        }
        let reward = match calculate_rewards(p.amount, apy, now - p.deposit_timestamp) {
            Some(v) => v,
            None => return Err(OptimizerError::Overflow),
        };
        if reward > u128::MAX - p.rewards_claimed {
            return Err(OptimizerError::Overflow);
        }
        let claimed = UserPosition { rewards_claimed: p.rewards_claimed + reward, ..p };
        self.user_positions[k].positions.set(i, claimed);
        proof {
            let e = self.user_positions@[k as int];
            assert(self.user_positions@ == old_entries.update(k as int, e));
            lemma_positions_after_update(old_entries, k as int, e);
            lemma_ledger_sum_update(old_entries, k as int, e);
            lemma_sum_amounts_update(old_entries[k as int].positions@, i as int, claimed);
            lemma_ledger_sum_in_update(old_entries, k as int, e);
            lemma_sum_amounts_in_update(old_entries[k as int].positions@, i as int, claimed);
        }
        Ok(Transfer { receiver: caller.clone(), amount: reward })
    }

    /// Sets the rate of strategy `strategy_id` to `new_apy` on behalf of `caller`
    /// at time `now`.
    ///
    /// Refused when `caller` is not the owner, or the strategy does not exist.
    pub fn update_strategy_apy(&mut self, caller: &String, strategy_id: u64, new_apy: u64, now: u64) -> (r:
        Result<(), OptimizerError>)
        requires
            old(self).wf(),
        ensures
            final(self).wf(),
            caller@ != old(self).owner() ==> r == Err::<(), OptimizerError>(
                OptimizerError::Unauthorized,
            ),
            caller@ == old(self).owner() && strategy_id >= old(self).strategies().len() ==> r
                == Err::<(), OptimizerError>(OptimizerError::StrategyNotFound),
            caller@ == old(self).owner() && strategy_id < old(self).strategies().len() ==> r is Ok,
            r is Ok ==> caller@ == old(self).owner(),
            r is Err ==> *final(self) == *old(self),
            r is Ok ==> {
                let s = old(self).strategies()[strategy_id as int];
                &&& final(self).strategies() == old(self).strategies().update(
                    strategy_id as int,
                    Strategy { apy: new_apy, last_update: now, ..s },
                )
                &&& final(self).total() == old(self).total()
                &&& final(self).same_positions(old(self))
                &&& final(self).owner() == old(self).owner()
                &&& final(self).reward_token() == old(self).reward_token()
            },
    {
        if !(*caller == self.owner_id) {
            return Err(OptimizerError::Unauthorized);
        }
        if strategy_id >= self.strategy_count {
            return Err(OptimizerError::StrategyNotFound);
        }
        let idx = strategy_id as usize;
        assert(self.strategies.len() == self.strategies@.len());
        let ghost old_strategies = self.strategies@;
        self.strategies[idx].apy = new_apy;
        self.strategies[idx].last_update = now;
        proof {
            lemma_sum_tvl_update(old_strategies, idx as int, self.strategies@[idx as int]);
            assert(self.strategies@ == old_strategies.update(idx as int, self.strategies@[idx as int]));
            assert(self.strategies@.len() == old_strategies.len());
        }
        Ok(())
    }

    /// The strategy with identifier `strategy_id`, if there is one.
    pub fn get_strategy(&self, strategy_id: u64) -> (r: Option<Strategy>)
        requires
            self.wf(),
        ensures
            strategy_id < self.strategies().len() ==> r == Some(self.strategies()[strategy_id as int]),
            strategy_id >= self.strategies().len() ==> r is None,
    {
        if strategy_id >= self.strategy_count {
            return None;
        }
        assert(self.strategies.len() == self.strategies@.len());
        Some(self.strategies[strategy_id as usize].snapshot())
    }

    /// The positions of `user_id`, oldest first: empty for an account that never
    /// deposited.
    pub fn get_user_positions(&self, user_id: String) -> (r: Vec<UserPosition>)
        requires
            self.wf(),
        ensures
            r@ == self.positions(user_id@),
    {
        let mut out: Vec<UserPosition> = Vec::new();
        match self.find_account(&user_id) {
            None => {
                assert(out@ =~= self.positions(user_id@));
            },
            Some(k) => {
                proof {
                    lemma_positions_at(self.user_positions@, k as int);
                }
                let ps = &self.user_positions[k].positions;
                let mut i: usize = 0;
                while i < ps.len()
                    invariant
                        i <= ps@.len(),
                        out@ =~= ps@.subrange(0, i as int),
                    decreases ps@.len() - i,
                {
                    out.push(ps[i]);
                    i = i + 1;
                }
                assert(out@ =~= ps@);
            },
        }
        out
    }

    /// The value locked over all strategies.
    pub fn get_total_tvl(&self) -> (r: u128)
        ensures
            r == self.total(),
    {
        self.total_tvl
    }
}

} // verus!