//! The contract operations.
//!
//! One plain operation per inbound command, each an explicit function of
//! the [`State`] handle it receives. Every operation is all-or-nothing: it
//! either applies its whole write-set and returns success, or fails a
//! precondition and applies nothing.

use vstd::prelude::*;

use crate::account::AccountId;
use crate::codec::{be_bytes_16, u128_to_be_bytes};
use crate::crypto::{encrypt_challenge, encrypted_challenge, make_seed, seed_of, spec_derive_secret};
use crate::error::ContractError;
use crate::hexnum::{hex_encode, hex_of, hex_value, parse_hex_u128, valid_hex_u128};
use crate::ledger::{spec_balance, spec_credit, spec_debit};
use crate::msg::{BalanceResponse, Coin, EventsResponse, SoldOutResponse, TicketsResponse, Transfer};
use crate::state::{spec_ids, spec_state_code, Event, State, Ticket, TicketState};

verus! {

use vstd::string::StringExecFns;

/// Every coin in the deposit is denominated in `uscrt`.
pub open spec fn spec_all_uscrt(funds: Seq<Coin>) -> bool {
    forall|i: int| 0 <= i < funds.len() ==> (#[trigger] funds[i]).denom@ == "uscrt"@
}

/// The amount a deposit credits: the amount of the last coin, zero when no
/// coin was attached. (Coins are read in order and each overwrites the
/// amount, so only the last one counts.)
pub open spec fn spec_deposit_amount(funds: Seq<Coin>) -> u128 {
    if funds.len() == 0 {
        0
    } else {
        funds.last().amount
    }
}

fn is_uscrt(denom: &String) -> (r: bool)
    ensures
        r == (denom@ == "uscrt"@),
{
    let lit = String::from_str("uscrt");
    *denom == lit
}

/// Credit the sender with the deposited funds.
///
/// Rejected without any state change when a coin of another denomination is
/// attached, or when no positive amount is attached at all.
pub fn try_deposit(state: &mut State, sender: &AccountId, funds: &Vec<Coin>) -> (r: Result<
    (),
    ContractError,
>)
    requires
        old(state).wf(),
        spec_all_uscrt(funds@) && spec_deposit_amount(funds@) > 0 ==> spec_balance(
            old(state).balances@,
            sender@,
        ) + spec_deposit_amount(funds@) <= u128::MAX,
    ensures
        final(state).wf(),
        !spec_all_uscrt(funds@) ==> r == Err::<(), ContractError>(ContractError::UnsupportedToken)
            && *final(state) == *old(state),
        spec_all_uscrt(funds@) && spec_deposit_amount(funds@) == 0 ==> r == Err::<
            (),
            ContractError,
        >(ContractError::NoFunds) && *final(state) == *old(state),
        spec_all_uscrt(funds@) && spec_deposit_amount(funds@) > 0 ==> {
            &&& r == Ok::<(), ContractError>(())
            &&& final(state).balances@ == spec_credit(
                old(state).balances@,
                sender@,
                spec_deposit_amount(funds@),
            )
            &&& final(state).config == old(state).config
            &&& final(state).events@ == old(state).events@
            &&& final(state).tickets@ == old(state).tickets@
            &&& final(state).organisers_events@ == old(state).organisers_events@
            &&& final(state).guests_tickets@ == old(state).guests_tickets@
        },
{
    let mut amount: u128 = 0;
    let n = funds.len();
    for i in 0..n
        invariant
            n == funds@.len(),
            spec_all_uscrt(funds@.take(i as int)),
            amount == spec_deposit_amount(funds@.take(i as int)),
            *state == *old(state),
            old(state).wf(),
    {
        if is_uscrt(&funds[i].denom) {
            amount = funds[i].amount;
            proof {
                let pre = funds@.take(i as int);
                let ext = funds@.take(i + 1);
                assert(ext.drop_last() =~= pre);
                assert(spec_all_uscrt(ext)) by {
                    assert forall|j: int| 0 <= j < ext.len() implies (#[trigger] ext[j]).denom@
                        == "uscrt"@ by {
                        if j < i {
                            assert(ext[j] == pre[j]);
                        } else {
                            assert(ext[j] == funds@[i as int]);
                        }
                    }
                }
                assert(ext.last() == funds@[i as int]);
            }
        } else {
            proof {
                assert(funds@[i as int].denom@ != "uscrt"@);
            }
            return Err(ContractError::UnsupportedToken);
        }
    }
    proof {
        assert(funds@.take(n as int) =~= funds@);
    }
    if amount == 0 {
        return Err(ContractError::NoFunds);
    }
    let bal = state.balances.read_account_balance(sender);
    state.balances.set_account_balance(sender, bal + amount);
    Ok(())
}

/// Debit the sender and emit the funds-transfer instruction for the host
/// ledger. A debit beyond the balance is rejected, not clamped, and leaves
/// the balance unchanged.
pub fn try_withdraw(state: &mut State, sender: &AccountId, amount: u128) -> (r: Result<
    Transfer,
    ContractError,
>)
    requires
        old(state).wf(),
    ensures
        final(state).wf(),
        final(state).config == old(state).config,
        final(state).events@ == old(state).events@,
        final(state).tickets@ == old(state).tickets@,
        final(state).organisers_events@ == old(state).organisers_events@,
        final(state).guests_tickets@ == old(state).guests_tickets@,
        ({
            let bal = spec_balance(old(state).balances@, sender@);
            &&& amount <= bal ==> {
                &&& r matches Ok(t) && t.to@ == sender@ && t.amount == amount
                &&& final(state).balances@ == spec_debit(old(state).balances@, sender@, amount)
            }
            &&& amount > bal ==> {
                &&& r == Err::<Transfer, ContractError>(
                    ContractError::InsufficientFunds { balance: bal, required: amount },
                )
                &&& final(state).balances@ == old(state).balances@
            }
        }),
{
    let bal = state.balances.read_account_balance(sender);
    if bal >= amount {
        state.balances.set_account_balance(sender, bal - amount);
        Ok(Transfer { to: sender.clone(), amount })
    } else {
        Err(ContractError::InsufficientFunds { balance: bal, required: amount })
    }
}

/// A list that grew by one id still contains everything it contained.
proof fn lemma_push_keeps_ids(s: Seq<u128>, x: u128)
    ensures
        s.push(x).contains(x),
        forall|y: u128| #[trigger] s.contains(y) ==> s.push(x).contains(y),
{
    assert(s.push(x)[s.len() as int] == x);
    assert forall|y: u128| s.contains(y) implies s.push(x).contains(y) by {
        let w = choose|w: int| 0 <= w < s.len() && s[w] == y;
        assert(s.push(x)[w] == y);
    }
}

/// What creating an event does: a malformed entropy string is rejected with
/// nothing changed; otherwise the event is stored under the next id with
/// zero sales, the id is appended to the organiser's index, and nothing
/// else moves.
pub open spec fn create_event_post(
    s0: State,
    s1: State,
    sender: Seq<u8>,
    price: u128,
    max_tickets: u128,
    entropy: Seq<char>,
    r: Result<u128, ContractError>,
) -> bool {
    if !valid_hex_u128(entropy) {
        r == Err::<u128, ContractError>(ContractError::InvalidEntropyHex) && s1 == s0
    } else {
        let id = (s0.config.num_events + 1) as u128;
        let ev = s1.events@.last();
        &&& r == Ok::<u128, ContractError>(id)
        &&& s1.config.num_events == id
        &&& s1.config.num_tickets == s0.config.num_tickets
        &&& s1.config.owner == s0.config.owner
        &&& s1.events@ == s0.events@.push(ev)
        &&& ev.id == id
        &&& ev.organiser@ == sender
        &&& ev.price == price
        &&& ev.max_tickets == max_tickets
        &&& ev.tickets_sold == 0
        &&& ev.entropy as int == hex_value(entropy)
        &&& s1.organisers_events@ == s0.organisers_events@.insert(
            sender,
            spec_ids(s0.organisers_events@, sender).push(id),
        )
        &&& s1.balances@ == s0.balances@
        &&& s1.tickets@ == s0.tickets@
        &&& s1.guests_tickets@ == s0.guests_tickets@
    }
}

/// Create an event with a fresh id for the sender: the ids issued this way
/// start at 1 and strictly increase across all organisers and calls.
pub fn try_create_event(
    state: &mut State,
    sender: &AccountId,
    price: u128,
    max_tickets: u128,
    entropy: &str,
) -> (r: Result<u128, ContractError>)
    requires
        old(state).wf(),
    ensures
        final(state).wf(),
        create_event_post(*old(state), *final(state), sender@, price, max_tickets, entropy@, r),
{
    let ghost s0 = *old(state);
    let entropy_raw = match parse_hex_u128(entropy) {
        Some(v) => v,
        None => {
            return Err(ContractError::InvalidEntropyHex);
        },
    };
    let n_events = state.events.records.len();
    proof {
        assert(s0.config.num_events == n_events);
        assert(s0.config.num_events < u128::MAX);
    }
    let event_id = state.config.get_next_event_id();
    let event = Event::new(event_id, sender.clone(), price, max_tickets, entropy_raw);
    state.events.store_event(event_id, event);
    let mut list = state.organisers_events.load_events(sender);
    proof {
        lemma_push_keeps_ids(list@, event_id);
    }
    list.push(event_id);
    state.organisers_events.store_events(sender, list);
    proof {
        let s1 = *state;
        let m0 = s0.organisers_events@;
        let m1 = s1.organisers_events@;
        let old_list = spec_ids(m0, sender@);
        assert(s1.events@ == s0.events@.push(event));
        assert(m1 == m0.insert(sender@, old_list.push(event_id)));
        assert(s1.events.wf()) by {
            assert forall|i: int| 0 <= i < s1.events@.len() implies (#[trigger] s1.events@[i]).id
                == i + 1 by {
                if i < s0.events@.len() {
                    assert(s1.events@[i] == s0.events@[i]);
                }
            }
        }
        assert(s1.events_capped()) by {
            assert forall|i: int|
                0 <= i < s1.events@.len() implies (#[trigger] s1.events@[i]).tickets_sold
                <= s1.events@[i].max_tickets by {
                if i < s0.events@.len() {
                    assert(s1.events@[i] == s0.events@[i]);
                }
            }
        }
        assert(s1.tickets_reference_events()) by {
            assert forall|i: int|
                0 <= i < s1.tickets@.len() implies 1 <= (#[trigger] s1.tickets@[i]).event_id
                <= s1.events@.len() by {
                assert(s1.tickets@[i] == s0.tickets@[i]);
            }
        }
        assert(s1.organiser_index_sound()) by {
            assert forall|a: Seq<u8>, j: int|
                0 <= j < spec_ids(m1, a).len() implies {
                let e = #[trigger] spec_ids(m1, a)[j];
                &&& 1 <= e <= s1.events@.len()
                &&& s1.events@[e - 1].organiser@ == a
            } by {
                if a == sender@ {
                    assert(spec_ids(m1, a) == old_list.push(event_id));
                    if j < old_list.len() {
                        assert(spec_ids(m1, a)[j] == old_list[j]);
                        let e = old_list[j];
                        assert(1 <= e <= s0.events@.len());
                        assert(s1.events@[e - 1] == s0.events@[e - 1]);
                    } else {
                        assert(spec_ids(m1, a)[j] == event_id);
                        assert(s1.events@[event_id - 1] == event);
                    }
                } else {
                    assert(spec_ids(m1, a) == spec_ids(m0, a));
                    let e = spec_ids(m0, a)[j];
                    assert(1 <= e <= s0.events@.len());
                    assert(s1.events@[e - 1] == s0.events@[e - 1]);
                }
            }
            assert forall|a: Seq<u8>, j: int, k: int|
                0 <= j < k < spec_ids(m1, a).len() implies #[trigger] spec_ids(m1, a)[j]
                < #[trigger] spec_ids(m1, a)[k] by {
                if a == sender@ {
                    assert(spec_ids(m1, a) == old_list.push(event_id));
                    if k < old_list.len() {
                        assert(spec_ids(m1, a)[j] == old_list[j]);
                        assert(spec_ids(m1, a)[k] == old_list[k]);
                    } else {
                        assert(spec_ids(m1, a)[j] == old_list[j]);
                        assert(spec_ids(m1, a)[k] == event_id);
                        assert(1 <= old_list[j] <= s0.events@.len());
                    }
                } else {
                    assert(spec_ids(m1, a) == spec_ids(m0, a));
                }
            }
        }
        assert(s1.organiser_index_complete()) by {
            assert forall|i: int|
                0 <= i < s1.events@.len() implies spec_ids(
                m1,
                (#[trigger] s1.events@[i]).organiser@,
            ).contains((i + 1) as u128) by {
                if i < s0.events@.len() {
                    assert(s1.events@[i] == s0.events@[i]);
                    let a = s0.events@[i].organiser@;
                    assert(spec_ids(m0, a).contains((i + 1) as u128));
                    if a == sender@ {
                        assert(spec_ids(m1, a) == old_list.push(event_id));
                    } else {
                        assert(spec_ids(m1, a) == spec_ids(m0, a));
                    }
                } else {
                    assert(s1.events@[i] == event);
                    assert(spec_ids(m1, sender@) == old_list.push(event_id));
                    assert(old_list.push(event_id).contains(event_id));
                }
            }
        }
        assert(s1.guest_index_sound()) by {
            assert forall|a: Seq<u8>, j: int|
                0 <= j < spec_ids(s1.guests_tickets@, a).len() implies {
                let t = #[trigger] spec_ids(s1.guests_tickets@, a)[j];
                &&& 1 <= t <= s1.tickets@.len()
                &&& s1.tickets@[t - 1].guest@ == a
            } by {
                assert(spec_ids(s1.guests_tickets@, a) == spec_ids(s0.guests_tickets@, a));
            }
        }
        assert(s1.guest_index_complete()) by {
            assert forall|i: int|
                0 <= i < s1.tickets@.len() implies spec_ids(
                s1.guests_tickets@,
                (#[trigger] s1.tickets@[i]).guest@,
            ).contains((i + 1) as u128) by {
                assert(s1.tickets@[i] == s0.tickets@[i]);
                assert(spec_ids(s1.guests_tickets@, s0.tickets@[i].guest@) == spec_ids(
                    s0.guests_tickets@,
                    s0.tickets@[i].guest@,
                ));
            }
        }
    }
    Ok(event_id)
}

/// The caller already holds a ticket for this event.
pub open spec fn spec_has_ticket_for(s: State, guest: Seq<u8>, event_id: u128) -> bool {
    exists|i: int|
        0 <= i < s.tickets@.len() && (#[trigger] s.tickets@[i]).guest@ == guest
            && s.tickets@[i].event_id == event_id
}

/// All preconditions of a purchase hold, so the sale would go through.
pub open spec fn buy_would_pay(s: State, guest: Seq<u8>, event_id: u128, entropy: Seq<
    char,
>) -> bool {
    &&& valid_hex_u128(entropy)
    &&& 1 <= event_id <= s.events@.len()
    &&& s.events@[event_id - 1].tickets_sold < s.events@[event_id - 1].max_tickets
    &&& !spec_has_ticket_for(s, guest, event_id)
    &&& spec_balance(s.balances@, guest) >= s.events@[event_id - 1].price
}

/// Crediting the organiser after the guest's debit stays within a `u128`
/// whenever the sale would go through. Crediting past the maximum is the
/// one input the host must keep away from a purchase.
pub open spec fn buy_credit_fits(s: State, guest: Seq<u8>, event_id: u128, entropy: Seq<
    char,
>) -> bool {
    buy_would_pay(s, guest, event_id, entropy) ==> {
        let price = s.events@[event_id - 1].price;
        let org = s.events@[event_id - 1].organiser@;
        spec_balance(spec_debit(s.balances@, guest, price), org) + price <= u128::MAX
    }
}

/// What buying a ticket does. The checks come in order — entropy wellformed,
/// event stored, capacity left, no ticket of this guest for this event yet,
/// balance covers the price — and the first to fail names the error, with
/// nothing changed. When all pass, atomically: the guest pays the organiser
/// the price, the event records one more sale, a fresh `Unverified` ticket
/// with a zero secret is stored under the next ticket id, and that id is
/// appended to the guest's index.
pub open spec fn buy_ticket_post(
    s0: State,
    s1: State,
    guest: Seq<u8>,
    event_id: u128,
    entropy: Seq<char>,
    pk: Seq<u8>,
    r: Result<u128, ContractError>,
) -> bool {
    if !valid_hex_u128(entropy) {
        r == Err::<u128, ContractError>(ContractError::InvalidEntropyHex) && s1 == s0
    } else if !(1 <= event_id <= s0.events@.len()) {
        r == Err::<u128, ContractError>(ContractError::EventNotFound) && s1 == s0
    } else {
        let ev = s0.events@[event_id - 1];
        if ev.tickets_sold >= ev.max_tickets {
            r == Err::<u128, ContractError>(ContractError::EventSoldOut) && s1 == s0
        } else if spec_has_ticket_for(s0, guest, event_id) {
            r == Err::<u128, ContractError>(ContractError::DuplicateTicket) && s1 == s0
        } else if spec_balance(s0.balances@, guest) < ev.price {
            r == Err::<u128, ContractError>(
                ContractError::InsufficientFunds {
                    balance: spec_balance(s0.balances@, guest),
                    required: ev.price,
                },
            ) && s1 == s0
        } else {
            let tid = (s0.config.num_tickets + 1) as u128;
            let t = s1.tickets@.last();
            let ev1 = s1.events@[event_id - 1];
            &&& r == Ok::<u128, ContractError>(tid)
            &&& s1.config.num_tickets == tid
            &&& s1.config.num_events == s0.config.num_events
            &&& s1.config.owner == s0.config.owner
            &&& s1.balances@ == spec_credit(
                spec_debit(s0.balances@, guest, ev.price),
                ev.organiser@,
                ev.price,
            )
            &&& s1.events@ == s0.events@.update(event_id - 1, ev1)
            &&& ev1.tickets_sold == ev.tickets_sold + 1
            &&& ev1.id == ev.id
            &&& ev1.organiser@ == ev.organiser@
            &&& ev1.price == ev.price
            &&& ev1.max_tickets == ev.max_tickets
            &&& ev1.entropy == ev.entropy
            &&& s1.tickets@ == s0.tickets@.push(t)
            &&& t.id == tid
            &&& t.event_id == event_id
            &&& t.guest@ == guest
            &&& t.state == TicketState::Unverified
            &&& t.secret == 0
            &&& t.pk@ == pk
            &&& s1.guests_tickets@ == s0.guests_tickets@.insert(
                guest,
                spec_ids(s0.guests_tickets@, guest).push(tid),
            )
            &&& s1.organisers_events@ == s0.organisers_events@
        }
    }
}

/// Buy a ticket for the event: pay the organiser the price out of escrow
/// and receive a fresh ticket in state `Unverified`.
pub fn try_buy_ticket(
    state: &mut State,
    sender: &AccountId,
    event_id: u128,
    entropy: &str,
    pk: Vec<u8>,
) -> (r: Result<u128, ContractError>)
    requires
        old(state).wf(),
        buy_credit_fits(*old(state), sender@, event_id, entropy@),
    ensures
        final(state).wf(),
        buy_ticket_post(*old(state), *final(state), sender@, event_id, entropy@, pk@, r),
{
    let ghost s0 = *old(state);
    // The buyer's entropy is validated like any other entropy argument and
    // then plays no further part in the sale.
    if parse_hex_u128(entropy).is_none() {
        return Err(ContractError::InvalidEntropyHex);
    }
    let evref = match state.events.may_load_event(event_id) {
        Some(ev) => ev,
        None => {
            return Err(ContractError::EventNotFound);
        },
    };
    if evref.is_sold_out() {
        return Err(ContractError::EventSoldOut);
    }
    let price = evref.get_price();
    let organiser = evref.get_organiser().clone();

    // No second ticket for the same event: scan the guest's own index.
    let mut my_tickets = state.guests_tickets.load_tickets(sender);
    let n = my_tickets.len();
    for i in 0..n
        invariant
            s0 == *old(state),
            *state == *old(state),
            old(state).wf(),
            n == my_tickets@.len(),
            my_tickets@ == spec_ids(old(state).guests_tickets@, sender@),
            1 <= event_id <= old(state).events@.len(),
            valid_hex_u128(entropy@),
            s0.events@[event_id - 1].tickets_sold < s0.events@[event_id - 1].max_tickets,
            forall|j: int|
                0 <= j < i ==> old(state).tickets@[#[trigger] my_tickets@[j] - 1].event_id
                    != event_id,
    {
        let tid = my_tickets[i];
        proof {
            assert(spec_ids(s0.guests_tickets@, sender@)[i as int] == tid);
        }
        let t = match state.tickets.may_load_ticket(tid) {
            Some(t) => t,
            None => {
                proof {
                    assert(false);
                }
                return Err(ContractError::TicketNotFound);
            },
        };
        if t.get_event_id() == event_id {
            proof {
                assert(s0.tickets@[tid - 1].guest@ == sender@ && s0.tickets@[tid - 1].event_id
                    == event_id);
            }
            return Err(ContractError::DuplicateTicket);
        }
    }
    proof {
        assert(!spec_has_ticket_for(s0, sender@, event_id)) by {
            if spec_has_ticket_for(s0, sender@, event_id) {
                let w = choose|w: int|
                    0 <= w < s0.tickets@.len() && (#[trigger] s0.tickets@[w]).guest@ == sender@
                        && s0.tickets@[w].event_id == event_id;
                assert(spec_ids(s0.guests_tickets@, sender@).contains((w + 1) as u128));
                let j = choose|j: int|
                    0 <= j < my_tickets@.len() && my_tickets@[j] == (w + 1) as u128;
                assert(s0.tickets@[my_tickets@[j] - 1].event_id != event_id);
            }
        }
    }

    // Funds: debit the guest, credit the organiser.
    let guest_balance = state.balances.read_account_balance(sender);
    if guest_balance < price {
        return Err(ContractError::InsufficientFunds { balance: guest_balance, required: price });
    }
    state.balances.set_account_balance(sender, guest_balance - price);
    let organiser_balance = state.balances.read_account_balance(&organiser);
    proof {
        assert(buy_would_pay(s0, sender@, event_id, entropy@));
        assert(state.balances@ == spec_debit(s0.balances@, sender@, price));
        assert(organiser_balance + price <= u128::MAX);
    }
    state.balances.set_account_balance(&organiser, organiser_balance + price);

    // Record the sale in the event.
    let evref2 = match state.events.may_load_event(event_id) {
        Some(ev) => ev,
        None => {
            proof {
                assert(false);
            }
            return Err(ContractError::EventNotFound);
        },
    };
    let mut updated = evref2.clone();
    updated.ticket_sold();
    let ghost g_event = updated;
    state.events.store_event(event_id, updated);

    // Store the fresh ticket and index it under the guest.
    let n_tickets = state.tickets.records.len();
    proof {
        assert(s0.config.num_tickets == n_tickets);
        assert(s0.config.num_tickets < u128::MAX);
    }
    let ticket_id = state.config.get_next_ticket_id();
    let ticket = Ticket::new(ticket_id, event_id, sender.clone(), pk);
    let ghost g_ticket = ticket;
    state.tickets.store_ticket(ticket_id, ticket);
    proof {
        lemma_push_keeps_ids(my_tickets@, ticket_id);
    }
    my_tickets.push(ticket_id);
    state.guests_tickets.store_tickets(sender, my_tickets);

    proof {
        let s1 = *state;
        let m0 = s0.guests_tickets@;
        let m1 = s1.guests_tickets@;
        let old_list = spec_ids(m0, sender@);
        let eidx = event_id - 1;
        assert(s1.events@ == s0.events@.update(eidx, g_event));
        assert(s1.tickets@ == s0.tickets@.push(g_ticket));
        assert(m1 == m0.insert(sender@, old_list.push(ticket_id)));
        assert(s1.events.wf()) by {
            assert forall|i: int| 0 <= i < s1.events@.len() implies (#[trigger] s1.events@[i]).id
                == i + 1 by {
                if i != eidx {
                    assert(s1.events@[i] == s0.events@[i]);
                }
            }
        }
        assert(s1.tickets.wf()) by {
            assert forall|i: int| 0 <= i < s1.tickets@.len() implies (#[trigger] s1.tickets@[i]).id
                == i + 1 by {
                if i < s0.tickets@.len() {
                    assert(s1.tickets@[i] == s0.tickets@[i]);
                }
            }
        }
        assert(s1.events_capped()) by {
            assert forall|i: int|
                0 <= i < s1.events@.len() implies (#[trigger] s1.events@[i]).tickets_sold
                <= s1.events@[i].max_tickets by {
                if i != eidx {
                    assert(s1.events@[i] == s0.events@[i]);
                }
            }
        }
        assert(s1.tickets_reference_events()) by {
            assert forall|i: int|
                0 <= i < s1.tickets@.len() implies 1 <= (#[trigger] s1.tickets@[i]).event_id
                <= s1.events@.len() by {
                if i < s0.tickets@.len() {
                    assert(s1.tickets@[i] == s0.tickets@[i]);
                }
            }
        }
        assert(s1.secrets_track_states()) by {
            assert forall|i: int|
                0 <= i < s1.tickets@.len() implies ((#[trigger] s1.tickets@[i]).state
                == TicketState::Validating <==> s1.tickets@[i].secret != 0) by {
                if i < s0.tickets@.len() {
                    assert(s1.tickets@[i] == s0.tickets@[i]);
                }
            }
        }
        assert(s1.organiser_index_sound()) by {
            assert forall|a: Seq<u8>, j: int|
                0 <= j < spec_ids(s1.organisers_events@, a).len() implies {
                let e = #[trigger] spec_ids(s1.organisers_events@, a)[j];
                &&& 1 <= e <= s1.events@.len()
                &&& s1.events@[e - 1].organiser@ == a
            } by {
                assert(spec_ids(s1.organisers_events@, a) == spec_ids(s0.organisers_events@, a));
                let e = spec_ids(s0.organisers_events@, a)[j];
                assert(1 <= e <= s0.events@.len());
                assert(s0.events@[e - 1].organiser@ == a);
                if e - 1 == eidx {
                    assert(s1.events@[e - 1].organiser@ == g_event.organiser@);
                } else {
                    assert(s1.events@[e - 1] == s0.events@[e - 1]);
                }
            }
            assert forall|a: Seq<u8>, j: int, k: int|
                0 <= j < k < spec_ids(s1.organisers_events@, a).len() implies #[trigger] spec_ids(
                s1.organisers_events@,
                a,
            )[j] < #[trigger] spec_ids(s1.organisers_events@, a)[k] by {
                assert(spec_ids(s1.organisers_events@, a) == spec_ids(s0.organisers_events@, a));
            }
        }
        assert(s1.organiser_index_complete()) by {
            assert forall|i: int|
                0 <= i < s1.events@.len() implies spec_ids(
                s1.organisers_events@,
                (#[trigger] s1.events@[i]).organiser@,
            ).contains((i + 1) as u128) by {
                let a0 = s0.events@[i].organiser@;
                assert(spec_ids(s0.organisers_events@, a0).contains((i + 1) as u128));
                assert(spec_ids(s1.organisers_events@, a0) == spec_ids(s0.organisers_events@, a0));
                if i == eidx {
                    assert(s1.events@[i].organiser@ == g_event.organiser@);
                    assert(g_event.organiser@ == a0);
                } else {
                    assert(s1.events@[i] == s0.events@[i]);
                }
            }
        }
        assert(s1.guest_index_sound()) by {
            assert forall|a: Seq<u8>, j: int|
                0 <= j < spec_ids(m1, a).len() implies {
                let t = #[trigger] spec_ids(m1, a)[j];
                &&& 1 <= t <= s1.tickets@.len()
                &&& s1.tickets@[t - 1].guest@ == a
            } by {
                if a == sender@ {
                    assert(spec_ids(m1, a) == old_list.push(ticket_id));
                    if j < old_list.len() {
                        assert(spec_ids(m1, a)[j] == old_list[j]);
                        let t = old_list[j];
                        assert(1 <= t <= s0.tickets@.len());
                        assert(s1.tickets@[t - 1] == s0.tickets@[t - 1]);
                    } else {
                        assert(spec_ids(m1, a)[j] == ticket_id);
                        assert(s1.tickets@[ticket_id - 1] == g_ticket);
                    }
                } else {
                    assert(spec_ids(m1, a) == spec_ids(m0, a));
                    let t = spec_ids(m0, a)[j];
                    assert(1 <= t <= s0.tickets@.len());
                    assert(s1.tickets@[t - 1] == s0.tickets@[t - 1]);
                }
            }
            assert forall|a: Seq<u8>, j: int, k: int|
                0 <= j < k < spec_ids(m1, a).len() implies #[trigger] spec_ids(m1, a)[j]
                < #[trigger] spec_ids(m1, a)[k] by {
                if a == sender@ {
                    assert(spec_ids(m1, a) == old_list.push(ticket_id));
                    if k < old_list.len() {
                        assert(spec_ids(m1, a)[j] == old_list[j]);
                        assert(spec_ids(m1, a)[k] == old_list[k]);
                    } else {
                        assert(spec_ids(m1, a)[j] == old_list[j]);
                        assert(spec_ids(m1, a)[k] == ticket_id);
                        assert(1 <= old_list[j] <= s0.tickets@.len());
                    }
                } else {
                    assert(spec_ids(m1, a) == spec_ids(m0, a));
                }
            }
        }
        assert(s1.guest_index_complete()) by {
            assert forall|i: int|
                0 <= i < s1.tickets@.len() implies spec_ids(
                m1,
                (#[trigger] s1.tickets@[i]).guest@,
            ).contains((i + 1) as u128) by {
                if i < s0.tickets@.len() {
                    assert(s1.tickets@[i] == s0.tickets@[i]);
                    let a = s0.tickets@[i].guest@;
                    assert(spec_ids(m0, a).contains((i + 1) as u128));
                    if a == sender@ {
                        assert(spec_ids(m1, a) == old_list.push(ticket_id));
                    } else {
                        assert(spec_ids(m1, a) == spec_ids(m0, a));
                    }
                } else {
                    assert(s1.tickets@[i] == g_ticket);
                    assert(spec_ids(m1, sender@) == old_list.push(ticket_id));
                    assert(old_list.push(ticket_id).contains(ticket_id));
                }
            }
        }
    }
    Ok(ticket_id)
}

/// What starting ticket verification does. The checks come in order —
/// ticket stored, not yet used, caller is the organiser of the ticket's
/// event, the holder's key material usable — and the first to fail names
/// the error, with nothing changed. When all pass, the per-ticket secret is
/// derived and stored, the ticket moves to `Validating`, and the hex form
/// of the encrypted secret is returned for the organiser to relay.
pub open spec fn verify_ticket_post(
    s0: State,
    s1: State,
    sender: Seq<u8>,
    ticket_id: u128,
    r: Result<String, ContractError>,
) -> bool {
    if !(1 <= ticket_id <= s0.tickets@.len()) {
        r == Err::<String, ContractError>(ContractError::TicketNotFound) && s1 == s0
    } else {
        let t = s0.tickets@[ticket_id - 1];
        if t.state == TicketState::Used {
            r == Err::<String, ContractError>(ContractError::TicketAlreadyUsed) && s1 == s0
        } else {
            let ev = s0.events@[t.event_id - 1];
            if ev.organiser@ != sender {
                r == Err::<String, ContractError>(ContractError::NotOrganiser) && s1 == s0
            } else {
                let secret = spec_derive_secret(ev.entropy, ticket_id);
                match encrypted_challenge(seed_of(ev.entropy), t.pk@, be_bytes_16(secret)) {
                    Option::None => r == Err::<String, ContractError>(
                        ContractError::InvalidPublicKey,
                    ) && s1 == s0,
                    Option::Some(c) => {
                        let t1 = s1.tickets@[ticket_id - 1];
                        &&& (r matches Ok(h) && h@ == hex_of(c))
                        &&& s1.tickets@ == s0.tickets@.update(ticket_id - 1, t1)
                        &&& t1.state == TicketState::Validating
                        &&& t1.secret == secret
                        &&& t1.id == t.id
                        &&& t1.event_id == t.event_id
                        &&& t1.guest@ == t.guest@
                        &&& t1.pk@ == t.pk@
                        &&& s1.config == s0.config
                        &&& s1.balances@ == s0.balances@
                        &&& s1.events@ == s0.events@
                        &&& s1.organisers_events@ == s0.organisers_events@
                        &&& s1.guests_tickets@ == s0.guests_tickets@
                    },
                }
            }
        }
    }
}

/// Start verifying a ticket holder: derive and store the challenge secret,
/// move the ticket to `Validating`, and return the secret encrypted under
/// the holder's declared public key, hex-encoded, for off-chain relay.
/// Only the organiser of the ticket's event may call this.
pub fn try_verify_ticket(state: &mut State, sender: &AccountId, ticket_id: u128) -> (r: Result<
    String,
    ContractError,
>)
    requires
        old(state).wf(),
    ensures
        final(state).wf(),
        verify_ticket_post(*old(state), *final(state), sender@, ticket_id, r),
{
    let ghost s0 = *old(state);
    let tref = match state.tickets.may_load_ticket(ticket_id) {
        Some(t) => t,
        None => {
            return Err(ContractError::TicketNotFound);
        },
    };
    if tref.get_state() == TicketState::Used {
        return Err(ContractError::TicketAlreadyUsed);
    }
    let event_id = tref.get_event_id();
    let mut updated = tref.clone();
    let evref = match state.events.may_load_event(event_id) {
        Some(e) => e,
        None => {
            proof {
                assert(false);
            }
            return Err(ContractError::EventNotFound);
        },
    };
    if !evref.get_organiser().same_as(sender) {
        return Err(ContractError::NotOrganiser);
    }
    let entropy = evref.get_entropy();

    // Derive the secret and encrypt it before committing anything, so a
    // holder with unusable key material leaves no trace of the attempt.
    let secret = updated.start_validation(entropy);
    let seed = make_seed(entropy);
    let msg = u128_to_be_bytes(secret);
    let ct = match encrypt_challenge(&seed, updated.get_pk(), &msg) {
        Some(c) => c,
        None => {
            return Err(ContractError::InvalidPublicKey);
        },
    };
    let ghost g_ticket = updated;
    state.tickets.store_ticket(ticket_id, updated);
    let hexed = hex_encode(&ct);
    proof {
        lemma_ticket_update_preserves_wf(s0, *state, ticket_id - 1, g_ticket);
    }
    Ok(hexed)
}

/// What completing guest verification does. The checks come in order —
/// secret text wellformed, ticket stored, verification started and the
/// ticket not yet used, caller is the organiser — and the first to fail
/// names the error, with nothing changed. A wrong secret is answered with
/// `SecretMismatch` and the ticket stays `Validating`, so the organiser may
/// retry; the right secret is zeroed and the ticket becomes `Used`.
pub open spec fn verify_guest_post(
    s0: State,
    s1: State,
    sender: Seq<u8>,
    ticket_id: u128,
    secret: Seq<char>,
    r: Result<(), ContractError>,
) -> bool {
    if !valid_hex_u128(secret) {
        r == Err::<(), ContractError>(ContractError::InvalidSecretHex) && s1 == s0
    } else if !(1 <= ticket_id <= s0.tickets@.len()) {
        r == Err::<(), ContractError>(ContractError::TicketNotFound) && s1 == s0
    } else {
        let t = s0.tickets@[ticket_id - 1];
        match t.state {
            TicketState::Unverified => r == Err::<(), ContractError>(
                ContractError::ValidationNotStarted,
            ) && s1 == s0,
            TicketState::Used => r == Err::<(), ContractError>(ContractError::TicketAlreadyUsed)
                && s1 == s0,
            TicketState::Validating => {
                let ev = s0.events@[t.event_id - 1];
                if ev.organiser@ != sender {
                    r == Err::<(), ContractError>(ContractError::NotOrganiser) && s1 == s0
                } else if hex_value(secret) != t.secret as int {
                    r == Err::<(), ContractError>(ContractError::SecretMismatch) && s1 == s0
                } else {
                    let t1 = s1.tickets@[ticket_id - 1];
                    &&& r == Ok::<(), ContractError>(())
                    &&& s1.tickets@ == s0.tickets@.update(ticket_id - 1, t1)
                    &&& t1.state == TicketState::Used
                    &&& t1.secret == 0
                    &&& t1.id == t.id
                    &&& t1.event_id == t.event_id
                    &&& t1.guest@ == t.guest@
                    &&& t1.pk@ == t.pk@
                    &&& s1.config == s0.config
                    &&& s1.balances@ == s0.balances@
                    &&& s1.events@ == s0.events@
                    &&& s1.organisers_events@ == s0.organisers_events@
                    &&& s1.guests_tickets@ == s0.guests_tickets@
                }
            },
        }
    }
}

/// Complete verification: the guest has echoed the decrypted secret back
/// through the organiser. A match uses the ticket up; a mismatch is
/// retryable. Only the organiser of the ticket's event may call this.
pub fn try_verify_guest(
    state: &mut State,
    sender: &AccountId,
    ticket_id: u128,
    secret: &str,
) -> (r: Result<(), ContractError>)
    requires
        old(state).wf(),
    ensures
        final(state).wf(),
        verify_guest_post(*old(state), *final(state), sender@, ticket_id, secret@, r),
{
    let ghost s0 = *old(state);
    let secret_raw = match parse_hex_u128(secret) {
        Some(v) => v,
        None => {
            return Err(ContractError::InvalidSecretHex);
        },
    };
    let tref = match state.tickets.may_load_ticket(ticket_id) {
        Some(t) => t,
        None => {
            return Err(ContractError::TicketNotFound);
        },
    };
    match tref.get_state() {
        TicketState::Unverified => {
            return Err(ContractError::ValidationNotStarted);
        },
        TicketState::Used => {
            return Err(ContractError::TicketAlreadyUsed);
        },
        TicketState::Validating => {},
    }
    let event_id = tref.get_event_id();
    let mut updated = tref.clone();
    let evref = match state.events.may_load_event(event_id) {
        Some(e) => e,
        None => {
            proof {
                assert(false);
            }
            return Err(ContractError::EventNotFound);
        },
    };
    if !evref.get_organiser().same_as(sender) {
        return Err(ContractError::NotOrganiser);
    }
    match updated.try_verify(secret_raw) {
        Ok(()) => {
            let ghost g_ticket = updated;
            state.tickets.store_ticket(ticket_id, updated);
            proof {
                lemma_ticket_update_preserves_wf(s0, *state, ticket_id - 1, g_ticket);
            }
            Ok(())
        },
        Err(e) => Err(e),
    }
}

/// Is the event sold out? An unknown event id is an error, not a default.
pub fn query_event_sold_out(state: &State, event_id: u128) -> (r: Result<
    SoldOutResponse,
    ContractError,
>)
    ensures
        1 <= event_id <= state.events@.len() ==> (r matches Ok(resp) && resp.sold_out == (
        state.events@[event_id - 1].tickets_sold >= state.events@[event_id - 1].max_tickets)),
        !(1 <= event_id <= state.events@.len()) ==> r == Err::<SoldOutResponse, ContractError>(
            ContractError::EventNotFound,
        ),
{
    match state.events.may_load_event(event_id) {
        Some(ev) => Ok(SoldOutResponse { sold_out: ev.is_sold_out() }),
        None => Err(ContractError::EventNotFound),
    }
}

/// The account's escrow balance; an account never seen holds zero.
pub fn query_balance(state: &State, address: &AccountId) -> (r: BalanceResponse)
    requires
        state.balances.wf(),
    ensures
        r.balance == spec_balance(state.balances@, address@),
{
    BalanceResponse { balance: state.balances.read_account_balance(address) }
}

/// The organiser's event ids with, aligned, the tickets each still has.
pub fn query_events(state: &State, address: &AccountId) -> (r: EventsResponse)
    requires
        state.wf(),
    ensures
        r.events@ == spec_ids(state.organisers_events@, address@),
        r.tickets_left@.len() == r.events@.len(),
        forall|i: int|
            0 <= i < r.events@.len() ==> #[trigger] r.tickets_left@[i] == state.events@[r.events@[i]
                - 1].max_tickets - state.events@[r.events@[i] - 1].tickets_sold,
{
    let ids = state.organisers_events.load_events(address);
    let mut tickets_left: Vec<u128> = Vec::new();
    let n = ids.len();
    for i in 0..n
        invariant
            state.wf(),
            n == ids@.len(),
            ids@ == spec_ids(state.organisers_events@, address@),
            tickets_left@.len() == i,
            forall|j: int|
                0 <= j < i ==> #[trigger] tickets_left@[j] == state.events@[ids@[j]
                    - 1].max_tickets - state.events@[ids@[j] - 1].tickets_sold,
    {
        let id = ids[i];
        proof {
            assert(spec_ids(state.organisers_events@, address@)[i as int] == id);
        }
        let ev = match state.events.may_load_event(id) {
            Some(e) => e,
            None => {
                proof {
                    assert(false);
                }
                return EventsResponse { events: Vec::new(), tickets_left: Vec::new() };
            },
        };
        tickets_left.push(ev.get_tickets_left());
    }
    EventsResponse { events: ids, tickets_left }
}

/// The guest's ticket ids with, aligned, each ticket's event id and state
/// code.
pub fn query_tickets(state: &State, address: &AccountId) -> (r: TicketsResponse)
    requires
        state.wf(),
    ensures
        r.tickets@ == spec_ids(state.guests_tickets@, address@),
        r.events@.len() == r.tickets@.len(),
        r.states@.len() == r.tickets@.len(),
        forall|i: int|
            0 <= i < r.tickets@.len() ==> #[trigger] r.events@[i] == state.tickets@[r.tickets@[i]
                - 1].event_id,
        forall|i: int|
            0 <= i < r.tickets@.len() ==> #[trigger] r.states@[i] == spec_state_code(
                state.tickets@[r.tickets@[i] - 1].state,
            ),
{
    let ids = state.guests_tickets.load_tickets(address);
    let mut events: Vec<u128> = Vec::new();
    let mut states: Vec<u8> = Vec::new();
    let n = ids.len();
    for i in 0..n
        invariant
            state.wf(),
            n == ids@.len(),
            ids@ == spec_ids(state.guests_tickets@, address@),
            events@.len() == i,
            states@.len() == i,
            forall|j: int|
                0 <= j < i ==> #[trigger] events@[j] == state.tickets@[ids@[j] - 1].event_id,
            forall|j: int|
                0 <= j < i ==> #[trigger] states@[j] == spec_state_code(
                    state.tickets@[ids@[j] - 1].state,
                ),
    {
        let id = ids[i];
        proof {
            assert(spec_ids(state.guests_tickets@, address@)[i as int] == id);
        }
        let t = match state.tickets.may_load_ticket(id) {
            Some(t) => t,
            None => {
                proof {
                    assert(false);
                }
                return TicketsResponse { tickets: Vec::new(), events: Vec::new(), states: Vec::new() };
            },
        };
        events.push(t.get_event_id());
        states.push(crate::state::state_code(t.get_state()));
    }
    TicketsResponse { tickets: ids, events, states }
}

/// Event ids issued by creation are strictly increasing from 1 and never
/// repeat, across any sequence of organisers and calls: the stored ids are
/// exactly `1..len`, a successful creation hands out an id larger than
/// every stored one, and the events already stored are untouched.
pub proof fn lemma_event_ids_strictly_increase(
    s0: State,
    s1: State,
    sender: Seq<u8>,
    price: u128,
    max_tickets: u128,
    entropy: Seq<char>,
    r: Result<u128, ContractError>,
)
    requires
        s0.wf(),
        valid_hex_u128(entropy),
        create_event_post(s0, s1, sender, price, max_tickets, entropy, r),
    ensures
        forall|i: int, j: int|
            0 <= i < j < s0.events@.len() ==> (#[trigger] s0.events@[i]).id
                != (#[trigger] s0.events@[j]).id,
        ({
            &&& r matches Ok(id)
            &&& id == s0.events@.len() + 1
            &&& forall|i: int| 0 <= i < s0.events@.len() ==> (#[trigger] s0.events@[i]).id < id
            &&& forall|i: int| 0 <= i < s0.events@.len() ==> s1.events@[i] == s0.events@[i]
        }),
{
    broadcast use vstd::std_specs::vec::axiom_spec_len;

    assert(vstd::std_specs::vec::spec_vec_len(&s0.events.records) == s0.events@.len());
    assert forall|i: int| 0 <= i < s0.events@.len() implies s1.events@[i] == s0.events@[i] by {
        assert(s1.events@ == s0.events@.push(s1.events@.last()));
    }
}

/// A ticket's state never moves backward: under every operation that
/// touches tickets, each stored ticket's state code only grows, and a
/// ticket is only ever created in the initial state.
pub proof fn lemma_states_monotonic_under_buy(
    s0: State,
    s1: State,
    guest: Seq<u8>,
    event_id: u128,
    entropy: Seq<char>,
    pk: Seq<u8>,
    r: Result<u128, ContractError>,
)
    requires
        buy_ticket_post(s0, s1, guest, event_id, entropy, pk, r),
    ensures
        forall|i: int|
            0 <= i < s0.tickets@.len() ==> spec_state_code((#[trigger] s1.tickets@[i]).state)
                >= spec_state_code(s0.tickets@[i].state),
        forall|i: int|
            s0.tickets@.len() <= i < s1.tickets@.len() ==> (#[trigger] s1.tickets@[i]).state
                == TicketState::Unverified,
{
    if s1.tickets@ != s0.tickets@ {
        assert(s1.tickets@ == s0.tickets@.push(s1.tickets@.last()));
    }
}

/// See [`lemma_states_monotonic_under_buy`]: starting verification moves
/// one ticket no further back than `Validating`.
pub proof fn lemma_states_monotonic_under_verify_ticket(
    s0: State,
    s1: State,
    sender: Seq<u8>,
    ticket_id: u128,
    r: Result<String, ContractError>,
)
    requires
        verify_ticket_post(s0, s1, sender, ticket_id, r),
    ensures
        s1.tickets@.len() == s0.tickets@.len(),
        forall|i: int|
            0 <= i < s0.tickets@.len() ==> spec_state_code((#[trigger] s1.tickets@[i]).state)
                >= spec_state_code(s0.tickets@[i].state),
{
    if s1.tickets@ != s0.tickets@ {
        let t = s0.tickets@[ticket_id - 1];
        assert(t.state != TicketState::Used);
        assert forall|i: int|
            0 <= i < s0.tickets@.len() implies spec_state_code((#[trigger] s1.tickets@[i]).state)
            >= spec_state_code(s0.tickets@[i].state) by {
            if i != ticket_id - 1 {
                assert(s1.tickets@[i] == s0.tickets@[i]);
            }
        }
    }
}

/// See [`lemma_states_monotonic_under_buy`]: completing verification moves
/// one `Validating` ticket forward to `Used`.
pub proof fn lemma_states_monotonic_under_verify_guest(
    s0: State,
    s1: State,
    sender: Seq<u8>,
    ticket_id: u128,
    secret: Seq<char>,
    r: Result<(), ContractError>,
)
    requires
        verify_guest_post(s0, s1, sender, ticket_id, secret, r),
    ensures
        s1.tickets@.len() == s0.tickets@.len(),
        forall|i: int|
            0 <= i < s0.tickets@.len() ==> spec_state_code((#[trigger] s1.tickets@[i]).state)
                >= spec_state_code(s0.tickets@[i].state),
{
    if s1.tickets@ != s0.tickets@ {
        let t = s0.tickets@[ticket_id - 1];
        assert(t.state == TicketState::Validating);
        assert forall|i: int|
            0 <= i < s0.tickets@.len() implies spec_state_code((#[trigger] s1.tickets@[i]).state)
            >= spec_state_code(s0.tickets@[i].state) by {
            if i != ticket_id - 1 {
                assert(s1.tickets@[i] == s0.tickets@[i]);
            }
        }
    }
}

/// Starting verification as any account other than the organiser of the
/// ticket's event always fails and changes nothing, whatever state the
/// ticket is in.
pub proof fn lemma_verify_ticket_needs_organiser(
    s0: State,
    s1: State,
    sender: Seq<u8>,
    ticket_id: u128,
    r: Result<String, ContractError>,
)
    requires
        s0.wf(),
        verify_ticket_post(s0, s1, sender, ticket_id, r),
        1 <= ticket_id <= s0.tickets@.len() ==> s0.events@[s0.tickets@[ticket_id - 1].event_id
            - 1].organiser@ != sender,
    ensures
        r is Err,
        s1 == s0,
{
}

/// Replacing a ticket in place — same id, same event, same guest, a secret
/// that is non-zero exactly in `Validating` — keeps the state well-formed.
proof fn lemma_ticket_update_preserves_wf(s0: State, s1: State, idx: int, t1: Ticket)
    requires
        s0.wf(),
        0 <= idx < s0.tickets@.len(),
        s1.tickets@ == s0.tickets@.update(idx, t1),
        t1.id == s0.tickets@[idx].id,
        t1.event_id == s0.tickets@[idx].event_id,
        t1.guest@ == s0.tickets@[idx].guest@,
        t1.state == TicketState::Validating <==> t1.secret != 0,
        s1.config == s0.config,
        s1.balances == s0.balances,
        s1.events == s0.events,
        s1.organisers_events == s0.organisers_events,
        s1.guests_tickets == s0.guests_tickets,
    ensures
        s1.wf(),
{
    assert(s1.tickets.wf()) by {
        assert forall|i: int| 0 <= i < s1.tickets@.len() implies (#[trigger] s1.tickets@[i]).id == i
            + 1 by {
            if i != idx {
                assert(s1.tickets@[i] == s0.tickets@[i]);
            }
        }
    }
    assert(s1.tickets_reference_events()) by {
        assert forall|i: int|
            0 <= i < s1.tickets@.len() implies 1 <= (#[trigger] s1.tickets@[i]).event_id
            <= s1.events@.len() by {
            if i != idx {
                assert(s1.tickets@[i] == s0.tickets@[i]);
            }
        }
    }
    assert(s1.secrets_track_states()) by {
        assert forall|i: int|
            0 <= i < s1.tickets@.len() implies ((#[trigger] s1.tickets@[i]).state
            == TicketState::Validating <==> s1.tickets@[i].secret != 0) by {
            if i != idx {
                assert(s1.tickets@[i] == s0.tickets@[i]);
            }
        }
    }
    assert(s1.guest_index_sound()) by {
        assert forall|a: Seq<u8>, j: int|
            0 <= j < spec_ids(s1.guests_tickets@, a).len() implies {
            let t = #[trigger] spec_ids(s1.guests_tickets@, a)[j];
            &&& 1 <= t <= s1.tickets@.len()
            &&& s1.tickets@[t - 1].guest@ == a
        } by {
            assert(spec_ids(s1.guests_tickets@, a) == spec_ids(s0.guests_tickets@, a));
            let t = spec_ids(s0.guests_tickets@, a)[j];
            assert(1 <= t <= s0.tickets@.len());
            assert(s0.tickets@[t - 1].guest@ == a);
            if t - 1 == idx {
                assert(s1.tickets@[t - 1].guest@ == t1.guest@);
            } else {
                assert(s1.tickets@[t - 1] == s0.tickets@[t - 1]);
            }
        }
        assert forall|a: Seq<u8>, j: int, k: int|
            0 <= j < k < spec_ids(s1.guests_tickets@, a).len() implies #[trigger] spec_ids(
            s1.guests_tickets@,
            a,
        )[j] < #[trigger] spec_ids(s1.guests_tickets@, a)[k] by {
            assert(spec_ids(s1.guests_tickets@, a) == spec_ids(s0.guests_tickets@, a));
        }
    }
    assert(s1.guest_index_complete()) by {
        assert forall|i: int|
            0 <= i < s1.tickets@.len() implies spec_ids(
            s1.guests_tickets@,
            (#[trigger] s1.tickets@[i]).guest@,
        ).contains((i + 1) as u128) by {
            let a0 = s0.tickets@[i].guest@;
            assert(spec_ids(s0.guests_tickets@, a0).contains((i + 1) as u128));
            assert(spec_ids(s1.guests_tickets@, a0) == spec_ids(s0.guests_tickets@, a0));
            if i == idx {
                assert(s1.tickets@[i].guest@ == t1.guest@);
                assert(t1.guest@ == a0);
            } else {
                assert(s1.tickets@[i] == s0.tickets@[i]);
            }
        }
    }
}

} // verus!
