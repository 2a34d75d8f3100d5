use vstd::prelude::*;
use vstd::arithmetic::div_mod::lemma_fundamental_div_mod;
use crate::error::Error;
use crate::expense::{Expense, ExpenseM};

verus! {

/// The equal share of one member of a single expense: floor division of the
/// amount by the member count.
pub open spec fn equal_share(amount: u32, member_count: int) -> int
    recommends
        member_count >= 1,
{
    amount as int / member_count
}

/// The payer's own share: the equal share plus the division remainder, so
/// that the shares of all members sum to the amount exactly.
pub open spec fn payer_share(amount: u32, member_count: int) -> int
    recommends
        member_count >= 1,
{
    equal_share(amount, member_count) + amount as int % member_count
}

/// What one expense contributes to one member's balance: the payer fronted
/// the amount beyond their own share; every other member owes their equal
/// share.
pub open spec fn expense_delta(e: ExpenseM, member: u128, member_count: int) -> int
    recommends
        member_count >= 1,
{
    if e.made_by == member {
        e.amount as int - payer_share(e.amount, member_count)
    } else {
        -equal_share(e.amount, member_count)
    }
}

/// A member's net balance: the sum of that member's deltas over all expenses.
pub open spec fn member_balance(member: u128, expenses: Seq<ExpenseM>, member_count: int) -> int
    decreases expenses.len(),
{
    if expenses.len() == 0 {
        0
    } else {
        member_balance(member, expenses.drop_last(), member_count) + expense_delta(
            expenses.last(),
            member,
            member_count,
        )
    }
}

/// The sum of all members' balances.
pub open spec fn total_balance(members: Seq<u128>, expenses: Seq<ExpenseM>, member_count: int) -> int
    decreases members.len(),
{
    if members.len() == 0 {
        0
    } else {
        total_balance(members.drop_last(), expenses, member_count) + member_balance(
            members.last(),
            expenses,
            member_count,
        )
    }
}

/// The views of a sequence of stored expenses.
pub open spec fn expense_views(es: Seq<Expense>) -> Seq<ExpenseM> {
    es.map_values(|e: Expense| e@)
}

/// What one expense contributes summed over a list of members.
spec fn sum_delta(e: ExpenseM, members: Seq<u128>, member_count: int) -> int
    decreases members.len(),
{
    if members.len() == 0 {
        0
    } else {
        sum_delta(e, members.drop_last(), member_count) + expense_delta(
            e,
            members.last(),
            member_count,
        )
    }
}

/// How often `x` occurs in `members`.
spec fn count_id(members: Seq<u128>, x: u128) -> int
    decreases members.len(),
{
    if members.len() == 0 {
        0
    } else {
        count_id(members.drop_last(), x) + if members.last() == x {
            1int
        } else {
            0int
        }
    }
}

proof fn lemma_count_not_contains(members: Seq<u128>, x: u128)
    requires
        !members.contains(x),
    ensures
        count_id(members, x) == 0,
    decreases members.len(),
{
    if members.len() > 0 {
        assert(members[members.len() - 1] != x);
        assert(!members.drop_last().contains(x)) by {
            if members.drop_last().contains(x) {
                let i = choose|i: int|
                    0 <= i < members.drop_last().len() && members.drop_last()[i] == x;
                assert(members[i] == x);
            }
        }
        lemma_count_not_contains(members.drop_last(), x);
    }
}

proof fn lemma_count_contains_once(members: Seq<u128>, x: u128)
    requires
        members.no_duplicates(),
        members.contains(x),
    ensures
        count_id(members, x) == 1,
    decreases members.len(),
{
    let last = members.len() - 1;
    if members.last() == x {
        assert(!members.drop_last().contains(x)) by {
            if members.drop_last().contains(x) {
                let i = choose|i: int|
                    0 <= i < members.drop_last().len() && members.drop_last()[i] == x;
                assert(members[i] == members[last]);
            }
        }
        lemma_count_not_contains(members.drop_last(), x);
    } else {
        let i = choose|i: int| 0 <= i < members.len() && members[i] == x;
        assert(members.drop_last()[i] == x);
        assert(members.drop_last().contains(x));
        assert(members.drop_last().no_duplicates()) by {
            assert forall|p: int, q: int|
                0 <= p < members.drop_last().len() && 0 <= q < members.drop_last().len() && p != q
                implies members.drop_last()[p] != members.drop_last()[q] by {
                assert(members[p] == members.drop_last()[p]);
                assert(members[q] == members.drop_last()[q]);
            }
        }
        lemma_count_contains_once(members.drop_last(), x);
    }
}

proof fn lemma_sum_delta_by_count(e: ExpenseM, members: Seq<u128>, member_count: int)
    requires
        member_count >= 1,
    ensures
        sum_delta(e, members, member_count) == count_id(members, e.made_by) * (e.amount as int
            - payer_share(e.amount, member_count)) + (members.len() - count_id(members, e.made_by))
            * (-equal_share(e.amount, member_count)),
    decreases members.len(),
{
    let p = e.amount as int - payer_share(e.amount, member_count);
    let s = -equal_share(e.amount, member_count);
    if members.len() == 0 {
        assert(count_id(members, e.made_by) == 0);
        assert(0 * p == 0 && (0 - 0) * s == 0) by (nonlinear_arith);
    } else {
        lemma_sum_delta_by_count(e, members.drop_last(), member_count);
        let c = count_id(members.drop_last(), e.made_by);
        let n = members.len() as int;
        assert(sum_delta(e, members, member_count) == sum_delta(e, members.drop_last(), member_count)
            + expense_delta(e, members.last(), member_count));
        assert(sum_delta(e, members.drop_last(), member_count) == c * p + ((n - 1) - c) * s);
        if members.last() == e.made_by {
            assert(count_id(members, e.made_by) == c + 1);
            assert(expense_delta(e, members.last(), member_count) == p);
            assert((c + 1) * p == c * p + p) by (nonlinear_arith);
            assert((n - (c + 1)) * s == ((n - 1) - c) * s) by (nonlinear_arith);
        } else {
            assert(count_id(members, e.made_by) == c);
            assert(expense_delta(e, members.last(), member_count) == s);
            assert((n - c) * s == ((n - 1) - c) * s + s) by (nonlinear_arith);
        }
    }
}

/// The conservation of one expense: its deltas over a distinct member list
/// that holds the payer sum to zero.
proof fn lemma_sum_delta_zero(e: ExpenseM, members: Seq<u128>)
    requires
        members.no_duplicates(),
        members.contains(e.made_by),
        members.len() >= 1,
    ensures
        sum_delta(e, members, members.len() as int) == 0,
{
    let m = members.len() as int;
    let a = e.amount as int;
    lemma_count_contains_once(members, e.made_by);
    lemma_sum_delta_by_count(e, members, m);
    lemma_fundamental_div_mod(a, m);
    let q = a / m;
    let r = a % m;
    assert((m - 1) * (-q) == -(m * q) + q) by (nonlinear_arith);
    assert(1 * (a - (q + r)) == a - q - r) by (nonlinear_arith);
}

proof fn lemma_total_balance_no_expenses(members: Seq<u128>, member_count: int)
    ensures
        total_balance(members, Seq::<ExpenseM>::empty(), member_count) == 0,
    decreases members.len(),
{
    if members.len() > 0 {
        lemma_total_balance_no_expenses(members.drop_last(), member_count);
    }
}

proof fn lemma_total_unfold_expense(members: Seq<u128>, expenses: Seq<ExpenseM>, member_count: int)
    requires
        expenses.len() > 0,
    ensures
        total_balance(members, expenses, member_count) == total_balance(
            members,
            expenses.drop_last(),
            member_count,
        ) + sum_delta(expenses.last(), members, member_count),
    decreases members.len(),
{
    if members.len() > 0 {
        lemma_total_unfold_expense(members.drop_last(), expenses, member_count);
    }
}

/// Balance conservation: for any expense list whose payers all belong to the
/// distinct, non-empty member list, the members' computed balances sum to
/// exactly zero.
pub proof fn lemma_balance_conservation(members: Seq<u128>, expenses: Seq<ExpenseM>)
    requires
        members.no_duplicates(),
        members.len() >= 1,
        forall|i: int|
            0 <= i < expenses.len() ==> members.contains((#[trigger] expenses[i]).made_by),
    ensures
        total_balance(members, expenses, members.len() as int) == 0,
    decreases expenses.len(),
{
    if expenses.len() == 0 {
        assert(expenses =~= Seq::<ExpenseM>::empty());
        lemma_total_balance_no_expenses(members, members.len() as int);
    } else {
        assert(forall|i: int|
            0 <= i < expenses.drop_last().len() ==> members.contains(
                (#[trigger] expenses.drop_last()[i]).made_by,
            )) by {
            assert(forall|i: int|
                0 <= i < expenses.drop_last().len() ==> expenses.drop_last()[i] == expenses[i]);
        }
        lemma_balance_conservation(members, expenses.drop_last());
        lemma_total_unfold_expense(members, expenses, members.len() as int);
        assert(members.contains(expenses[expenses.len() - 1].made_by));
        lemma_sum_delta_zero(expenses.last(), members);
    }
}

/// With a single member every expense is paid by that member and split with
/// nobody, so their balance is zero regardless of the amounts.
pub proof fn lemma_single_member_zero(members: Seq<u128>, expenses: Seq<ExpenseM>)
    requires
        members.len() == 1,
        forall|i: int|
            0 <= i < expenses.len() ==> members.contains((#[trigger] expenses[i]).made_by),
    ensures
        member_balance(members[0], expenses, 1) == 0,
    decreases expenses.len(),
{
    if expenses.len() > 0 {
        assert(forall|i: int|
            0 <= i < expenses.drop_last().len() ==> members.contains(
                (#[trigger] expenses.drop_last()[i]).made_by,
            )) by {
            assert(forall|i: int|
                0 <= i < expenses.drop_last().len() ==> expenses.drop_last()[i] == expenses[i]);
        }
        lemma_single_member_zero(members, expenses.drop_last());
        let e = expenses.last();
        assert(members.contains(expenses[expenses.len() - 1].made_by));
        assert(e.made_by == members[0]);
        assert(e.amount as int / 1 == e.amount as int) by (nonlinear_arith);
        assert(e.amount as int % 1 == 0) by (nonlinear_arith);
    }
}

/// The equal share of one member for a single expense; the payer carries the
/// division remainder on top, so that the shares of all members sum to the
/// amount exactly.
pub fn share(amount: u32, member_count: usize, payer: bool) -> (r: u64)
    requires
        member_count >= 1,
    ensures
        payer ==> r as int == payer_share(amount, member_count as int),
        !payer ==> r as int == equal_share(amount, member_count as int),
        r <= amount as u64,
{
    let a: u64 = amount as u64;
    let m: u64 = member_count as u64;
    let s: u64 = a / m;
    proof {
        lemma_fundamental_div_mod(a as int, m as int);
        assert(a as int / m as int >= 0 && a as int % m as int >= 0 && a as int / m as int
            + a as int % m as int <= a as int) by (nonlinear_arith)
            requires
                m >= 1,
                a >= 0,
        ;
    }
    if payer {
        s + a % m
    } else {
        s
    }
}

/// Computes every member's net balance over the given expenses under the
/// equal-split policy, pairing the members with their balances in order.
/// With no members there is nothing to split: that fails, and it is the only
/// failure.
pub fn compute_balances(members: &Vec<u128>, expenses: &Vec<Expense>) -> (r: Result<
    Vec<(u128, i128)>,
    Error,
>)
    requires
        members@.no_duplicates(),
        forall|i: int|
            0 <= i < expenses@.len() ==> members@.contains((#[trigger] expenses@[i])@.made_by),
    ensures
        members@.len() == 0 ==> r == Err::<Vec<(u128, i128)>, Error>(Error::EmptyProjectError),
        members@.len() >= 1 ==> r is Ok && r->Ok_0@.len() == members@.len() && forall|i: int|
            0 <= i < members@.len() ==> (#[trigger] r->Ok_0@[i]).0 == members@[i]
                && r->Ok_0@[i].1 as int == member_balance(
                members@[i],
                expense_views(expenses@),
                members@.len() as int,
            ),
{
    if members.len() == 0 {
        return Err(Error::EmptyProjectError);
    }
    let m = members.len();
    let ghost ev = expense_views(expenses@);
    let mut out: Vec<(u128, i128)> = Vec::new();
    let mut i: usize = 0;
    while i < members.len()
        invariant
            m == members@.len(),
            m >= 1,
            i <= m,
            out@.len() == i,
            ev == expense_views(expenses@),
            forall|k: int|
                0 <= k < i ==> (#[trigger] out@[k]).0 == members@[k] && out@[k].1 as int
                    == member_balance(members@[k], ev, m as int),
        decreases m - i,
    {
        let member = members[i];
        let mut acc: i128 = 0;
        let mut j: usize = 0;
        while j < expenses.len()
            invariant
                m >= 1,
                j <= expenses@.len(),
                ev == expense_views(expenses@),
                acc as int == member_balance(member, ev.take(j as int), m as int),
                -(j as int) * 0x1_0000_0000 <= acc as int <= (j as int) * 0x1_0000_0000,
            decreases expenses@.len() - j,
        {
            let e = &expenses[j];
            let is_payer = e.made_by == member;
            let s = share(e.amount, m, is_payer);
            proof {
                assert(ev[j as int] == expenses@[j as int]@);
            }
            if is_payer {
                acc = acc + ((e.amount as u64 - s) as i128);
            } else {
                acc = acc - (s as i128);
            }
            proof {
                assert(ev.take(j as int + 1).drop_last() =~= ev.take(j as int));
                assert(ev.take(j as int + 1).last() == ev[j as int]);
            }
            j += 1;
        }
        proof {
            assert(ev.take(expenses@.len() as int) =~= ev);
        }
        out.push((member, acc));
        i += 1;
    }
    Ok(out)
}

} // verus!
