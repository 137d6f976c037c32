//! The vesting schedule that a token carries: payments in the order in
//! which they fall due, each claimable from its block on and only after all
//! earlier ones. Who holds the token is not recorded here; who owns the
//! contract is, and only the owner may mint and burn.

use crate::account::AccountId;
use vstd::prelude::*;

verus! {

/// What the first payment of a token made without a schedule pays.
pub const DEFAULT_PAYMENT: u128 = 84;

/// How many blocks after its making such a token's payment can be claimed.
pub const DEFAULT_DELAY: u32 = 100;

/// The identifier of a token. `Id::U8(1)` and `Id::U16(1)` are different
/// identifiers.
#[derive(Clone, Debug, PartialEq, Eq)]
pub enum Id {
    U8(u8),
    U16(u16),
    U32(u32),
    U64(u64),
    U128(u128),
    Bytes(Vec<u8>),
}

/// Notice that token `id` has passed from `from` to `to`. A token that is
/// minted has no `from`, one that is burnt no `to`.
#[derive(Clone, Debug, PartialEq, Eq)]
pub struct TransferEvent {
    pub from: Option<AccountId>,
    pub to: Option<AccountId>,
    pub id: Id,
}

/// Notice that `owner` has allowed `spender` to move token `id`, or all of
/// its tokens where there is no `id`, or has taken that permission back.
#[derive(Clone, Debug, PartialEq, Eq)]
pub struct ApprovalEvent {
    pub owner: AccountId,
    pub spender: AccountId,
    pub id: Option<Id>,
    pub approved: bool,
}

/// What the owner of the contract may ask of the table of tokens.
#[derive(Clone, Debug, PartialEq, Eq)]
pub enum TokenOrder {
    /// Make token `id` and give it to `account`.
    Mint { account: AccountId, id: Id },
    /// Take token `id` from `account` and destroy it.
    Burn { account: AccountId, id: Id },
}

/// Why a request to the token contract was refused.
#[derive(Clone, Copy, Debug, PartialEq, Eq, Structural)]
pub enum Error {
    /// Someone other than the owner of the contract asked.
    CallerIsNotOwner,
}

/// One payment of a vesting schedule.
#[derive(Clone, Copy, Debug, PartialEq, Eq, Structural)]
pub struct ValueStreamItem {
    pub payment_amount: u128,
    pub already_paid: bool,
    /// The first block at which the payment can be claimed.
    pub earliest_claimable_block: u32,
}

/// The item after it has been paid.
pub open spec fn paid(item: ValueStreamItem) -> ValueStreamItem {
    ValueStreamItem { already_paid: true, ..item }
}

/// How many payments at the head of `s` have been paid: the place of the
/// first unpaid one, or the length of `s` where all are paid.
pub open spec fn first_unpaid(s: Seq<ValueStreamItem>) -> int
    decreases s.len(),
{
    if s.len() == 0 || !s[0].already_paid {
        0
    } else {
        1 + first_unpaid(s.drop_first())
    }
}

/// No payment of `s` has been paid before an earlier one.
pub open spec fn paid_in_order(s: Seq<ValueStreamItem>) -> bool {
    forall|i: int, j: int| 0 <= i < j < s.len() && s[j].already_paid ==> s[i].already_paid
}

/// How many blocks after block `now` the next payment of `s` can be claimed:
/// none where it can be claimed at `now`, and no answer where every payment
/// has been paid.
pub open spec fn blocks_until_claim(s: Seq<ValueStreamItem>, now: u32) -> Option<u32> {
    let i = first_unpaid(s);
    if i >= s.len() {
        None
    } else if now >= s[i].earliest_claimable_block {
        Some(0u32)
    } else {
        Some((s[i].earliest_claimable_block - now) as u32)
    }
}

/// The schedule of `iterations` payments of `each_payment`, the first at
/// block `start_block` and each next one `spacing` blocks later. Where there
/// is nothing to pay it is a single payment of nothing, already paid.
pub open spec fn stream_of(
    each_payment: u128,
    iterations: u32,
    start_block: u32,
    spacing: u32,
) -> Seq<ValueStreamItem> {
    if iterations == 0 || each_payment == 0 {
        seq![
            ValueStreamItem {
                payment_amount: 0,
                already_paid: true,
                earliest_claimable_block: start_block,
            },
        ]
    } else {
        Seq::new(
            iterations as nat,
            |i: int|
                ValueStreamItem {
                    payment_amount: each_payment,
                    already_paid: false,
                    earliest_claimable_block: (start_block + i * spacing) as u32,
                },
        )
    }
}

/// Whether every block of that schedule is a block number.
pub open spec fn spec_stream_fits(
    each_payment: u128,
    iterations: u32,
    start_block: u32,
    spacing: u32,
) -> bool {
    iterations == 0 || each_payment == 0 || start_block + (iterations - 1) * spacing <= u32::MAX
}

/// Whether every block of that schedule is a block number.
#[verifier::when_used_as_spec(spec_stream_fits)]
pub fn stream_fits(
    each_payment: u128,
    iterations: u32,
    start_block: u32,
    spacing: u32,
) -> (fits: bool)
    ensures
        fits == stream_fits(each_payment, iterations, start_block, spacing),
{
    if iterations == 0 || each_payment == 0 {
        return true;
    }
    match (iterations - 1).checked_mul(spacing) {
        Some(span) => start_block.checked_add(span).is_some(),
        None => false,
    }
}

/// `first_unpaid` is the one place before which all is paid and at which,
/// if it is a place of `s`, the payment is unpaid.
pub proof fn lemma_first_unpaid(s: Seq<ValueStreamItem>)
    ensures
        0 <= first_unpaid(s) <= s.len(),
        forall|j: int| 0 <= j < first_unpaid(s) ==> s[j].already_paid,
        first_unpaid(s) < s.len() ==> !s[first_unpaid(s)].already_paid,
    decreases s.len(),
{
    if s.len() == 0 || !s[0].already_paid {
    } else {
        let t = s.drop_first();
        lemma_first_unpaid(t);
        assert forall|j: int| 0 <= j < first_unpaid(s) implies s[j].already_paid by {
            if j > 0 {
                assert(s[j] == t[j - 1]);
            }
        }
        if first_unpaid(s) < s.len() {
            assert(s[first_unpaid(s)] == t[first_unpaid(t)]);
        }
    }
}

/// A place with those two properties is `first_unpaid`.
pub proof fn lemma_first_unpaid_is(s: Seq<ValueStreamItem>, i: int)
    requires
        0 <= i <= s.len(),
        forall|j: int| 0 <= j < i ==> s[j].already_paid,
        i < s.len() ==> !s[i].already_paid,
    ensures
        first_unpaid(s) == i,
{
    lemma_first_unpaid(s);
    let k = first_unpaid(s);
    if k < i {
        assert(s[k].already_paid);
    } else if i < k {
        assert(s[i].already_paid);
    }
}

/// A schedule with nothing to pay offers no claim at any block; any other
/// offers its first payment, from `start_block` on.
pub proof fn lemma_stream_of_first_claim(
    each_payment: u128,
    iterations: u32,
    start_block: u32,
    spacing: u32,
    now: u32,
)
    ensures
        paid_in_order(stream_of(each_payment, iterations, start_block, spacing)),
        blocks_until_claim(stream_of(each_payment, iterations, start_block, spacing), now) == (
        if iterations == 0 || each_payment == 0 {
            None
        } else if now >= start_block {
            Some(0u32)
        } else {
            Some((start_block - now) as u32)
        }),
{
    let s = stream_of(each_payment, iterations, start_block, spacing);
    if iterations == 0 || each_payment == 0 {
        lemma_first_unpaid_is(s, 1);
    } else {
        lemma_first_unpaid_is(s, 0);
    }
}

/// A token contract with its vesting schedule: the payments that fall due,
/// in order, to whoever holds the token when they are claimed.
pub struct PolNft {
    owner: AccountId,
    value_stream: Vec<ValueStreamItem>,
}

impl View for PolNft {
    type V = Seq<ValueStreamItem>;

    closed spec fn view(&self) -> Seq<ValueStreamItem> {
        self.value_stream@
    }
}

impl PolNft {
    #[verifier::type_invariant]
    spec fn well_formed(self) -> bool {
        paid_in_order(self.value_stream@)
    }

    /// The owner of the contract.
    pub closed spec fn spec_owner(&self) -> AccountId {
        self.owner
    }

    /// A contract owned by `owner` whose schedule is one payment of
    /// `DEFAULT_PAYMENT`, due `DEFAULT_DELAY` blocks after `current_block`.
    pub fn new(owner: AccountId, current_block: u32) -> (s: Self)
        requires
            current_block + DEFAULT_DELAY <= u32::MAX,
        ensures
            s.owner() == owner,
            s@ == seq![
                ValueStreamItem {
                    payment_amount: DEFAULT_PAYMENT,
                    already_paid: false,
                    earliest_claimable_block: (current_block + DEFAULT_DELAY) as u32,
                },
            ],
    {
        let stream_item = ValueStreamItem {
            payment_amount: DEFAULT_PAYMENT,
            already_paid: false,
            earliest_claimable_block: current_block + DEFAULT_DELAY,
        };
        let mut stream_items: Vec<ValueStreamItem> = Vec::new();
        stream_items.push(stream_item);
        assert(stream_items@ =~= seq![stream_item]);
        PolNft { owner, value_stream: stream_items }
    }

    /// A contract owned by `owner` with the schedule
    /// `stream_of(each_payment, iterations, start_block, blocks_between_payments)`.
    pub fn new_with_stream(
        owner: AccountId,
        each_payment: u128,
        iterations: u32,
        start_block: u32,
        blocks_between_payments: u32,
    ) -> (s: Self)
        requires
            stream_fits(each_payment, iterations, start_block, blocks_between_payments),
        ensures
            s.owner() == owner,
            s@ == stream_of(each_payment, iterations, start_block, blocks_between_payments),
    {
        let mut stream_items: Vec<ValueStreamItem> = Vec::new();
        if iterations == 0 || each_payment == 0 {
            let stream_item = ValueStreamItem {
                payment_amount: 0,
                already_paid: true,
                earliest_claimable_block: start_block,
            };
            stream_items.push(stream_item);
            assert(stream_items@ =~= seq![stream_item]);
        } else {
            let ghost whole = stream_of(
                each_payment,
                iterations,
                start_block,
                blocks_between_payments,
            );
            let mut i: u32 = 0;
            while i < iterations
                invariant
                    i <= iterations,
                    iterations > 0,
                    each_payment > 0,
                    start_block + (iterations - 1) * blocks_between_payments <= u32::MAX,
                    whole == stream_of(
                        each_payment,
                        iterations,
                        start_block,
                        blocks_between_payments,
                    ),
                    stream_items@ == whole.take(i as int),
                decreases iterations - i,
            {
                assert(i * blocks_between_payments <= (iterations - 1) * blocks_between_payments)
                    by (nonlinear_arith)
                    requires
                        i <= iterations - 1,
                        blocks_between_payments >= 0,
                ;
                let payment_block: u32 = start_block + i * blocks_between_payments;
                let stream_item = ValueStreamItem {
                    payment_amount: each_payment,
                    already_paid: false,
                    earliest_claimable_block: payment_block,
                };
                stream_items.push(stream_item);
                assert(stream_items@ =~= whole.take(i + 1));
                i += 1;
            }
            assert(stream_items@ =~= whole);
        }
        PolNft { owner, value_stream: stream_items }
    }

    /// The contract owned by `owner` whose schedule is `value_stream`.
    /// There is none, and the result is `None`, where the schedule has a
    /// payment that was paid before an earlier one.
    pub fn from_parts(owner: AccountId, value_stream: Vec<ValueStreamItem>) -> (r: Option<Self>)
        ensures
            r is Some <==> paid_in_order(value_stream@),
            r matches Some(s) ==> s.owner() == owner && s@ == value_stream@,
    {
        let n: usize = value_stream.len();
        let mut first_open: usize = n;
        let mut i: usize = 0;
        while i < n
            invariant
                i <= n,
                n == value_stream@.len(),
                first_open == n || first_open < i,
                first_open < n ==> !value_stream@[first_open as int].already_paid,
                forall|j: int|
                    0 <= j < i && j < first_open ==> value_stream@[j].already_paid,
                forall|j: int|
                    first_open <= j < i ==> !value_stream@[j].already_paid,
            decreases n - i,
        {
            if value_stream[i].already_paid {
                if first_open < n {
                    return None;
                }
            } else if first_open == n {
                first_open = i;
            }
            i += 1;
        }
        Some(PolNft { owner, value_stream })
    }

    /// The owner of the contract.
    #[verifier::when_used_as_spec(spec_owner)]
    pub fn owner(&self) -> (o: AccountId)
        ensures
            o == self.owner(),
    {
        self.owner
    }

    /// The schedule. In it no payment has been paid before an earlier one.
    pub fn value_stream(&self) -> (v: &Vec<ValueStreamItem>)
        ensures
            v@ == self@,
            paid_in_order(self@),
    {
        proof {
            use_type_invariant(self);
        }
        &self.value_stream
    }

    /// How many blocks before a claim can be made, counted from
    /// `current_block`; `None` where no payment is left to claim.
    pub fn blocks_to_next_claim(&self, current_block: u32) -> (r: Option<u32>)
        ensures
            r == blocks_until_claim(self@, current_block),
    {
        let num_payments: usize = self.value_stream.len();
        let mut i: usize = 0;
        while i < num_payments
            invariant
                i <= num_payments,
                num_payments == self.value_stream@.len(),
                forall|j: int| 0 <= j < i ==> self.value_stream@[j].already_paid,
            decreases num_payments - i,
        {
            let item = &self.value_stream[i];
            if !item.already_paid {
                proof {
                    lemma_first_unpaid_is(self.value_stream@, i as int);
                }
                if item.earliest_claimable_block <= current_block {
                    return Some(0);
                } else {
                    return Some(item.earliest_claimable_block - current_block);
                }
            }
            i += 1;
        }
        proof {
            lemma_first_unpaid_is(self.value_stream@, num_payments as int);
        }
        None
    }

    /// Claims the next payment at block `current_block`: marks it paid and
    /// returns its amount, which is owed to whoever holds the token. Only
    /// the first unpaid payment can be claimed, and only from its block on;
    /// otherwise nothing changes and the result is `None`.
    pub fn claim(&mut self, current_block: u32) -> (r: Option<u128>)
        ensures
            r is Some <==> blocks_until_claim(old(self)@, current_block) == Some(0u32),
            r is None ==> final(self)@ == old(self)@,
            r matches Some(amount) ==> {
                let i = first_unpaid(old(self)@);
                &&& amount == old(self)@[i].payment_amount
                &&& final(self)@ == old(self)@.update(i, paid(old(self)@[i]))
                &&& first_unpaid(final(self)@) == i + 1
            },
            final(self)@.len() == old(self)@.len(),
            forall|j: int|
                #![trigger final(self)@[j]]
                0 <= j < old(self)@.len() && old(self)@[j].already_paid ==> final(self)@[j]
                    == old(self)@[j],
            final(self).owner() == old(self).owner(),
            paid_in_order(final(self)@),
    {
        proof {
            use_type_invariant(&*self);
            lemma_first_unpaid(self.value_stream@);
        }
        let num_payments: usize = self.value_stream.len();
        let mut i: usize = 0;
        while i < num_payments && self.value_stream[i].already_paid
            invariant
                i <= num_payments,
                num_payments == self.value_stream@.len(),
                forall|j: int| 0 <= j < i ==> self.value_stream@[j].already_paid,
            decreases num_payments - i,
        {
            i += 1;
        }
        proof {
            lemma_first_unpaid_is(self.value_stream@, i as int);
        }
        if i == num_payments {
            return None;
        }
        let item = self.value_stream[i];
        if current_block < item.earliest_claimable_block {
            return None;
        }
        let mut stream_items: Vec<ValueStreamItem> = Vec::new();
        std::mem::swap(&mut stream_items, &mut self.value_stream);
        let ghost before = stream_items@;
        stream_items.set(i, ValueStreamItem { already_paid: true, ..item });
        proof {
            let after = stream_items@;
            assert forall|j: int, k: int|
                0 <= j < k < after.len() && after[k].already_paid implies after[j].already_paid by {
                if k != i {
                    assert(before[k].already_paid);
                    if j != i {
                        assert(before[j].already_paid);
                    }
                }
            }
            assert forall|j: int| 0 <= j < i + 1 implies after[j].already_paid by {
                if j != i {
                    assert(before[j].already_paid);
                }
            }
            if i + 1 < after.len() {
                assert(before[i + 1] == after[i + 1]);
                assert(!before[i as int].already_paid);
            }
            lemma_first_unpaid_is(after, i + 1);
        }
        self.value_stream = stream_items;
        Some(item.payment_amount)
    }

    /// Whether `caller` may have token `id` minted to `account`: the owner
    /// of the contract may, and gets the order to hand to the table of
    /// tokens; anyone else is refused.
    pub fn mint(
        &self,
        caller: AccountId,
        account: AccountId,
        id: Id,
    ) -> (r: Result<TokenOrder, Error>)
        ensures
            r == (if caller == self.owner() {
                Ok::<TokenOrder, Error>(TokenOrder::Mint { account, id })
            } else {
                Err::<TokenOrder, Error>(Error::CallerIsNotOwner)
            }),
    {
        if caller == self.owner {
            Ok(TokenOrder::Mint { account, id })
        } else {
            Err(Error::CallerIsNotOwner)
        }
    }

    /// Whether `caller` may have token `id` of `account` burnt: the owner of
    /// the contract may, and gets the order to hand to the table of tokens;
    /// anyone else is refused.
    pub fn burn(
        &self,
        caller: AccountId,
        account: AccountId,
        id: Id,
    ) -> (r: Result<TokenOrder, Error>)
        ensures
            r == (if caller == self.owner() {
                Ok::<TokenOrder, Error>(TokenOrder::Burn { account, id })
            } else {
                Err::<TokenOrder, Error>(Error::CallerIsNotOwner)
            }),
    {
        if caller == self.owner {
            Ok(TokenOrder::Burn { account, id })
        } else {
            Err(Error::CallerIsNotOwner)
        }
    }

    /// The notice to send when token `id` has passed from `from` to `to`.
    pub fn transfer_event(
        &self,
        from: Option<AccountId>,
        to: Option<AccountId>,
        id: Id,
    ) -> (e: TransferEvent)
        ensures
            e == (TransferEvent { from, to, id }),
    {
        TransferEvent { from, to, id }
    }

    /// The notice to send when `owner` has set the permission of `spender`
    /// over token `id`, or over all its tokens, to `approved`.
    pub fn approval_event(
        &self,
        owner: AccountId,
        spender: AccountId,
        id: Option<Id>,
        approved: bool,
    ) -> (e: ApprovalEvent)
        ensures
            e == (ApprovalEvent { owner, spender, id, approved }),
    {
        ApprovalEvent { owner, spender, id, approved }
    }
}

} // verus!
