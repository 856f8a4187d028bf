//! The entity registries and the contract state.
//!
//! Events and tickets live in id-keyed registries whose ids are issued by
//! the [`Config`] counters, start at 1, and are dense: the record with id
//! `i` sits at index `i - 1` and nothing is ever deleted. Two account-keyed
//! indices — organiser to event ids and guest to ticket ids — are derived,
//! append-only back-references, never the source of truth.

use vstd::prelude::*;

use crate::account::AccountId;
use crate::crypto::spec_derive_secret;
use crate::error::ContractError;
use crate::ledger::Balances;
use crate::store::{copy_ids, AccountMap};

verus! {

use vstd::pervasive::VecAdditionalExecFns;

/// The contract configuration singleton: the instantiating owner and the
/// two id counters, which only ever increase.
#[derive(Debug)]
pub struct Config {
    pub owner: AccountId,
    pub num_events: u128,
    pub num_tickets: u128,
}

impl Config {
    pub fn new(owner: AccountId) -> (r: Config)
        ensures
            r.owner@ == owner@,
            r.num_events == 0,
            r.num_tickets == 0,
    {
        Config { owner, num_events: 0, num_tickets: 0 }
    }

    pub fn get_owner(&self) -> (r: &AccountId)
        ensures
            r@ == self.owner@,
    {
        &self.owner
    }

    pub fn get_num_events(&self) -> (r: u128)
        ensures
            r == self.num_events,
    {
        self.num_events
    }

    pub fn get_num_tickets(&self) -> (r: u128)
        ensures
            r == self.num_tickets,
    {
        self.num_tickets
    }

    /// Issue the next event id: ids start at 1, strictly increase, and are
    /// never reused or reset.
    pub fn get_next_event_id(&mut self) -> (r: u128)
        requires
            old(self).num_events < u128::MAX,
        ensures
            r == old(self).num_events + 1,
            final(self).num_events == r,
            final(self).num_tickets == old(self).num_tickets,
            final(self).owner == old(self).owner,
    {
        self.num_events = self.num_events + 1;
        self.num_events
    }

    /// Issue the next ticket id, under the same regime as event ids.
    pub fn get_next_ticket_id(&mut self) -> (r: u128)
        requires
            old(self).num_tickets < u128::MAX,
        ensures
            r == old(self).num_tickets + 1,
            final(self).num_tickets == r,
            final(self).num_events == old(self).num_events,
            final(self).owner == old(self).owner,
    {
        self.num_tickets = self.num_tickets + 1;
        self.num_tickets
    }
}

/// Where a ticket stands in the verification protocol. The state only ever
/// moves forward: `Unverified` to `Validating` to `Used`.
#[derive(Clone, Copy, Debug, PartialEq, Eq, Structural)]
pub enum TicketState {
    Unverified,
    Validating,
    Used,
}

/// The numeric code a ticket state is reported as.
pub open spec fn spec_state_code(s: TicketState) -> u8 {
    match s {
        TicketState::Unverified => 0,
        TicketState::Validating => 1,
        TicketState::Used => 2,
    }
}

pub fn state_code(s: TicketState) -> (r: u8)
    ensures
        r == spec_state_code(s),
{
    match s {
        TicketState::Unverified => 0,
        TicketState::Validating => 1,
        TicketState::Used => 2,
    }
}

/// A capacity-limited event. `price`, `max_tickets` and `entropy` are fixed
/// at creation; only `tickets_sold` ever changes, and only by one per sale.
#[derive(Debug)]
pub struct Event {
    pub id: u128,
    pub organiser: AccountId,
    pub price: u128,
    pub max_tickets: u128,
    pub tickets_sold: u128,
    pub entropy: u128,
}

impl Event {
    pub fn new(id: u128, organiser: AccountId, price: u128, max_tickets: u128, entropy: u128) -> (r:
        Event)
        ensures
            r.id == id,
            r.organiser@ == organiser@,
            r.price == price,
            r.max_tickets == max_tickets,
            r.tickets_sold == 0,
            r.entropy == entropy,
    {
        Event { id, organiser, price, max_tickets, tickets_sold: 0, entropy }
    }

    pub fn get_id(&self) -> (r: u128)
        ensures
            r == self.id,
    {
        self.id
    }

    pub fn get_organiser(&self) -> (r: &AccountId)
        ensures
            r@ == self.organiser@,
    {
        &self.organiser
    }

    pub fn get_price(&self) -> (r: u128)
        ensures
            r == self.price,
    {
        self.price
    }

    pub fn get_max_tickets(&self) -> (r: u128)
        ensures
            r == self.max_tickets,
    {
        self.max_tickets
    }

    pub fn get_tickets_sold(&self) -> (r: u128)
        ensures
            r == self.tickets_sold,
    {
        self.tickets_sold
    }

    pub fn get_entropy(&self) -> (r: u128)
        ensures
            r == self.entropy,
    {
        self.entropy
    }

    pub fn is_sold_out(&self) -> (r: bool)
        ensures
            r == (self.tickets_sold >= self.max_tickets),
    {
        self.tickets_sold >= self.max_tickets
    }

    /// How many tickets are still available.
    pub fn get_tickets_left(&self) -> (r: u128)
        requires
            self.tickets_sold <= self.max_tickets,
        ensures
            r == self.max_tickets - self.tickets_sold,
    {
        self.max_tickets - self.tickets_sold
    }

    /// Record one sale. The registry trusts the caller to have checked
    /// `is_sold_out` first; the capacity cap is deliberately not enforced
    /// here — a known weakness, kept rather than silently repaired.
    pub fn ticket_sold(&mut self)
        requires
            old(self).tickets_sold < u128::MAX,
        ensures
            final(self).tickets_sold == old(self).tickets_sold + 1,
            final(self).id == old(self).id,
            final(self).organiser == old(self).organiser,
            final(self).price == old(self).price,
            final(self).max_tickets == old(self).max_tickets,
            final(self).entropy == old(self).entropy,
    {
        self.tickets_sold = self.tickets_sold + 1;
    }
}

impl Clone for Event {
    fn clone(&self) -> (r: Event)
        ensures
            r.id == self.id,
            r.organiser@ == self.organiser@,
            r.price == self.price,
            r.max_tickets == self.max_tickets,
            r.tickets_sold == self.tickets_sold,
            r.entropy == self.entropy,
    {
        Event {
            id: self.id,
            organiser: self.organiser.clone(),
            price: self.price,
            max_tickets: self.max_tickets,
            tickets_sold: self.tickets_sold,
            entropy: self.entropy,
        }
    }
}

/// A ticket for one event. The secret is non-zero exactly while the ticket
/// is `Validating`; the holder's declared public-key material is stored as
/// the text it arrived as and only interpreted at verification time.
#[derive(Debug)]
pub struct Ticket {
    pub id: u128,
    pub event_id: u128,
    pub guest: AccountId,
    pub state: TicketState,
    pub secret: u128,
    pub pk: Vec<u8>,
}

impl Ticket {
    pub fn new(id: u128, event_id: u128, guest: AccountId, pk: Vec<u8>) -> (r: Ticket)
        ensures
            r.id == id,
            r.event_id == event_id,
            r.guest@ == guest@,
            r.state == TicketState::Unverified,
            r.secret == 0,
            r.pk@ == pk@,
    {
        Ticket { id, event_id, guest, state: TicketState::Unverified, secret: 0, pk }
    }

    pub fn get_id(&self) -> (r: u128)
        ensures
            r == self.id,
    {
        self.id
    }

    pub fn get_event_id(&self) -> (r: u128)
        ensures
            r == self.event_id,
    {
        self.event_id
    }

    pub fn get_guest(&self) -> (r: &AccountId)
        ensures
            r@ == self.guest@,
    {
        &self.guest
    }

    pub fn get_state(&self) -> (r: TicketState)
        ensures
            r == self.state,
    {
        self.state
    }

    pub fn get_pk(&self) -> (r: &Vec<u8>)
        ensures
            r@ == self.pk@,
    {
        &self.pk
    }

    /// Derive and store the per-ticket secret and move to `Validating`.
    /// Restarting an already `Validating` ticket derives the same secret.
    pub fn start_validation(&mut self, entropy: u128) -> (r: u128)
        requires
            old(self).state != TicketState::Used,
        ensures
            r == spec_derive_secret(entropy, old(self).id),
            r != 0,
            final(self).secret == r,
            final(self).state == TicketState::Validating,
            final(self).id == old(self).id,
            final(self).event_id == old(self).event_id,
            final(self).guest == old(self).guest,
            final(self).pk == old(self).pk,
    {
        let secret = crate::crypto::derive_secret(entropy, self.id);
        self.state = TicketState::Validating;
        self.secret = secret;
        secret
    }

    /// Compare the claimed secret with the stored one. On a match the
    /// secret is zeroed and the ticket is `Used`; on a mismatch nothing
    /// changes and the caller may retry.
    pub fn try_verify(&mut self, secret: u128) -> (r: Result<(), ContractError>)
        requires
            old(self).state == TicketState::Validating,
        ensures
            secret == old(self).secret ==> {
                &&& r == Ok::<(), ContractError>(())
                &&& final(self).secret == 0
                &&& final(self).state == TicketState::Used
                &&& final(self).id == old(self).id
                &&& final(self).event_id == old(self).event_id
                &&& final(self).guest == old(self).guest
                &&& final(self).pk == old(self).pk
            },
            secret != old(self).secret ==> {
                &&& r == Err::<(), ContractError>(ContractError::SecretMismatch)
                &&& *final(self) == *old(self)
            },
    {
        if self.secret != secret {
            return Err(ContractError::SecretMismatch);
        }
        self.secret = 0;
        self.state = TicketState::Used;
        Ok(())
    }
}

impl Clone for Ticket {
    fn clone(&self) -> (r: Ticket)
        ensures
            r.id == self.id,
            r.event_id == self.event_id,
            r.guest@ == self.guest@,
            r.state == self.state,
            r.secret == self.secret,
            r.pk@ == self.pk@,
    {
        Ticket {
            id: self.id,
            event_id: self.event_id,
            guest: self.guest.clone(),
            state: self.state,
            secret: self.secret,
            pk: crate::store::clone_bytes(&self.pk),
        }
    }
}

/// The id-keyed event registry.
pub struct Events {
    pub records: Vec<Event>,
}

impl View for Events {
    type V = Seq<Event>;

    open spec fn view(&self) -> Seq<Event> {
        self.records@
    }
}

impl Events {
    /// Ids are dense: the event with id `i` sits at index `i - 1`.
    pub open spec fn wf(&self) -> bool {
        forall|i: int| 0 <= i < self@.len() ==> (#[trigger] self@[i]).id == i + 1
    }

    pub fn new() -> (r: Events)
        ensures
            r@ == Seq::<Event>::empty(),
            r.wf(),
    {
        Events { records: Vec::new() }
    }

    /// Store the event under its id: a fresh id appends, an existing id
    /// replaces.
    pub fn store_event(&mut self, event_id: u128, event: Event)
        requires
            event.id == event_id,
            1 <= event_id <= old(self)@.len() + 1,
        ensures
            event_id <= old(self)@.len() ==> final(self)@ == old(self)@.update(
                event_id - 1,
                event,
            ),
            event_id == old(self)@.len() + 1 ==> final(self)@ == old(self)@.push(event),
    {
        let idx = (event_id - 1) as usize;
        if idx == self.records.len() {
            self.records.push(event);
        } else {
            self.records.set(idx, event);
        }
    }

    /// Load the event with the given id, if one was ever stored.
    pub fn may_load_event(&self, event_id: u128) -> (r: Option<&Event>)
        ensures
            (1 <= event_id <= self@.len()) ==> (r matches Some(e) && *e == self@[event_id - 1]),
            !(1 <= event_id <= self@.len()) ==> r is None,
    {
        if 1 <= event_id && event_id <= self.records.len() as u128 {
            Some(&self.records[(event_id - 1) as usize])
        } else {
            None
        }
    }
}

/// The id-keyed ticket registry.
pub struct Tickets {
    pub records: Vec<Ticket>,
}

impl View for Tickets {
    type V = Seq<Ticket>;

    open spec fn view(&self) -> Seq<Ticket> {
        self.records@
    }
}

impl Tickets {
    /// Ids are dense: the ticket with id `i` sits at index `i - 1`.
    pub open spec fn wf(&self) -> bool {
        forall|i: int| 0 <= i < self@.len() ==> (#[trigger] self@[i]).id == i + 1
    }

    pub fn new() -> (r: Tickets)
        ensures
            r@ == Seq::<Ticket>::empty(),
            r.wf(),
    {
        Tickets { records: Vec::new() }
    }

    /// Store the ticket under its id: a fresh id appends, an existing id
    /// replaces.
    pub fn store_ticket(&mut self, ticket_id: u128, ticket: Ticket)
        requires
            ticket.id == ticket_id,
            1 <= ticket_id <= old(self)@.len() + 1,
        ensures
            ticket_id <= old(self)@.len() ==> final(self)@ == old(self)@.update(
                ticket_id - 1,
                ticket,
            ),
            ticket_id == old(self)@.len() + 1 ==> final(self)@ == old(self)@.push(ticket),
    {
        let idx = (ticket_id - 1) as usize;
        if idx == self.records.len() {
            self.records.push(ticket);
        } else {
            self.records.set(idx, ticket);
        }
    }

    /// Load the ticket with the given id, if one was ever stored.
    pub fn may_load_ticket(&self, ticket_id: u128) -> (r: Option<&Ticket>)
        ensures
            (1 <= ticket_id <= self@.len()) ==> (r matches Some(t) && *t == self@[ticket_id - 1]),
            !(1 <= ticket_id <= self@.len()) ==> r is None,
    {
        if 1 <= ticket_id && ticket_id <= self.records.len() as u128 {
            Some(&self.records[(ticket_id - 1) as usize])
        } else {
            None
        }
    }
}

/// The ordered list of ids an account-keyed index holds for an account:
/// empty for an account never seen.
pub open spec fn spec_ids(m: Map<Seq<u8>, Seq<u128>>, a: Seq<u8>) -> Seq<u128> {
    if m.contains_key(a) {
        m[a]
    } else {
        Seq::empty()
    }
}

/// The organiser-to-event-ids index: ordered and append-only.
pub struct OrganisersEvents {
    pub index: AccountMap<Vec<u128>>,
}

impl View for OrganisersEvents {
    type V = Map<Seq<u8>, Seq<u128>>;

    open spec fn view(&self) -> Map<Seq<u8>, Seq<u128>> {
        self.index@
    }
}

impl OrganisersEvents {
    pub open spec fn wf(&self) -> bool {
        self.index.keys_unique()
    }

    pub fn new() -> (r: OrganisersEvents)
        ensures
            r.wf(),
            r@ == Map::<Seq<u8>, Seq<u128>>::empty(),
    {
        OrganisersEvents { index: AccountMap::new() }
    }

    /// The organiser's event ids; empty for an organiser never seen.
    pub fn load_events(&self, organiser: &AccountId) -> (r: Vec<u128>)
        requires
            self.wf(),
        ensures
            r@ == spec_ids(self@, organiser@),
    {
        match self.index.get(organiser) {
            Some(v) => copy_ids(v),
            None => Vec::new(),
        }
    }

    /// Overwrite the organiser's event ids.
    pub fn store_events(&mut self, organiser: &AccountId, events: Vec<u128>)
        requires
            old(self).wf(),
        ensures
            final(self).wf(),
            final(self)@ == old(self)@.insert(organiser@, events@),
    {
        self.index.set(organiser, events)
    }
}

/// The guest-to-ticket-ids index: ordered and append-only.
pub struct GuestsTickets {
    pub index: AccountMap<Vec<u128>>,
}

impl View for GuestsTickets {
    type V = Map<Seq<u8>, Seq<u128>>;

    open spec fn view(&self) -> Map<Seq<u8>, Seq<u128>> {
        self.index@
    }
}

impl GuestsTickets {
    pub open spec fn wf(&self) -> bool {
        self.index.keys_unique()
    }

    pub fn new() -> (r: GuestsTickets)
        ensures
            r.wf(),
            r@ == Map::<Seq<u8>, Seq<u128>>::empty(),
    {
        GuestsTickets { index: AccountMap::new() }
    }

    /// The guest's ticket ids; empty for a guest never seen.
    pub fn load_tickets(&self, guest: &AccountId) -> (r: Vec<u128>)
        requires
            self.wf(),
        ensures
            r@ == spec_ids(self@, guest@),
    {
        match self.index.get(guest) {
            Some(v) => copy_ids(v),
            None => Vec::new(),
        }
    }

    /// Overwrite the guest's ticket ids.
    pub fn store_tickets(&mut self, guest: &AccountId, tickets: Vec<u128>)
        requires
            old(self).wf(),
        ensures
            final(self).wf(),
            final(self)@ == old(self)@.insert(guest@, tickets@),
    {
        self.index.set(guest, tickets)
    }
}

/// The whole persisted state of the contract: the explicit handle every
/// operation receives, never a process-wide global.
pub struct State {
    pub config: Config,
    pub balances: Balances,
    pub events: Events,
    pub tickets: Tickets,
    pub organisers_events: OrganisersEvents,
    pub guests_tickets: GuestsTickets,
}

impl State {
    /// Everything the registries and indices promise each other.
    pub open spec fn wf(&self) -> bool {
        &&& self.config.num_events == self.events@.len()
        &&& self.config.num_tickets == self.tickets@.len()
        &&& self.events.wf()
        &&& self.tickets.wf()
        &&& self.events_capped()
        &&& self.tickets_reference_events()
        &&& self.secrets_track_states()
        &&& self.balances.wf()
        &&& self.organisers_events.wf()
        &&& self.guests_tickets.wf()
        &&& self.organiser_index_sound()
        &&& self.organiser_index_complete()
        &&& self.guest_index_sound()
        &&& self.guest_index_complete()
    }

    /// No event has sold past its capacity.
    pub open spec fn events_capped(&self) -> bool {
        forall|i: int|
            0 <= i < self.events@.len() ==> (#[trigger] self.events@[i]).tickets_sold
                <= self.events@[i].max_tickets
    }

    /// Every ticket points at a stored event.
    pub open spec fn tickets_reference_events(&self) -> bool {
        forall|i: int|
            0 <= i < self.tickets@.len() ==> 1 <= (#[trigger] self.tickets@[i]).event_id
                <= self.events@.len()
    }

    /// A ticket's secret is non-zero exactly while it is `Validating`.
    pub open spec fn secrets_track_states(&self) -> bool {
        forall|i: int|
            0 <= i < self.tickets@.len() ==> ((#[trigger] self.tickets@[i]).state
                == TicketState::Validating <==> self.tickets@[i].secret != 0)
    }

    /// Every id in an organiser's list names a stored event of that
    /// organiser, and the list strictly increases.
    pub open spec fn organiser_index_sound(&self) -> bool {
        &&& forall|a: Seq<u8>, j: int|
            #![trigger spec_ids(self.organisers_events@, a)[j]]
            0 <= j < spec_ids(self.organisers_events@, a).len() ==> {
                let e = spec_ids(self.organisers_events@, a)[j];
                &&& 1 <= e <= self.events@.len()
                &&& self.events@[e - 1].organiser@ == a
            }
        &&& forall|a: Seq<u8>, j: int, k: int|
            #![trigger spec_ids(self.organisers_events@, a)[j], spec_ids(self.organisers_events@, a)[k]]
            0 <= j < k < spec_ids(self.organisers_events@, a).len() ==> spec_ids(
                self.organisers_events@,
                a,
            )[j] < spec_ids(self.organisers_events@, a)[k]
    }

    /// Every stored event is listed under its organiser.
    pub open spec fn organiser_index_complete(&self) -> bool {
        forall|i: int|
            0 <= i < self.events@.len() ==> spec_ids(
                self.organisers_events@,
                (#[trigger] self.events@[i]).organiser@,
            ).contains((i + 1) as u128)
    }

    /// Every id in a guest's list names a stored ticket of that guest, and
    /// the list strictly increases.
    pub open spec fn guest_index_sound(&self) -> bool {
        &&& forall|a: Seq<u8>, j: int|
            #![trigger spec_ids(self.guests_tickets@, a)[j]]
            0 <= j < spec_ids(self.guests_tickets@, a).len() ==> {
                let t = spec_ids(self.guests_tickets@, a)[j];
                &&& 1 <= t <= self.tickets@.len()
                &&& self.tickets@[t - 1].guest@ == a
            }
        &&& forall|a: Seq<u8>, j: int, k: int|
            #![trigger spec_ids(self.guests_tickets@, a)[j], spec_ids(self.guests_tickets@, a)[k]]
            0 <= j < k < spec_ids(self.guests_tickets@, a).len() ==> spec_ids(
                self.guests_tickets@,
                a,
            )[j] < spec_ids(self.guests_tickets@, a)[k]
    }

    /// Every stored ticket is listed under its guest.
    pub open spec fn guest_index_complete(&self) -> bool {
        forall|i: int|
            0 <= i < self.tickets@.len() ==> spec_ids(
                self.guests_tickets@,
                (#[trigger] self.tickets@[i]).guest@,
            ).contains((i + 1) as u128)
    }

    /// The state created at contract instantiation: the sender becomes the
    /// owner, every store starts empty.
    pub fn instantiate(owner: AccountId) -> (r: State)
        ensures
            r.wf(),
            r.config.owner@ == owner@,
            r.config.num_events == 0,
            r.config.num_tickets == 0,
            r.balances@ == Map::<Seq<u8>, u128>::empty(),
            r.events@ == Seq::<Event>::empty(),
            r.tickets@ == Seq::<Ticket>::empty(),
            r.organisers_events@ == Map::<Seq<u8>, Seq<u128>>::empty(),
            r.guests_tickets@ == Map::<Seq<u8>, Seq<u128>>::empty(),
    {
        State {
            config: Config::new(owner),
            balances: Balances::new(),
            events: Events::new(),
            tickets: Tickets::new(),
            organisers_events: OrganisersEvents::new(),
            guests_tickets: GuestsTickets::new(),
        }
    }
}

} // verus!
