//! The storage codec.
//!
//! Events and tickets are persisted under a fixed binary encoding and keyed
//! by the big-endian 16-byte form of their numeric id; balances are stored
//! as the same 16-byte form. A read of any other length is a corruption
//! error, never a default. The record encodings are defined in
//! [`crate::state`]; this module holds the numeric layer they share.

use vstd::prelude::*;

use vstd::arithmetic::power2::{
    lemma2_to64, lemma2_to64_rest, lemma_pow2_adds, lemma_pow2_strictly_increases, pow2,
};

use crate::account::AccountId;
use crate::error::ContractError;
use crate::state::{spec_state_code, state_code, Config, Event, Ticket, TicketState};

use vstd::slice::{slice_index_get, slice_subrange, slice_to_vec};

verus! {

/// The big-endian 16-byte form of a 128-bit integer.
pub open spec fn be_bytes_16(x: u128) -> Seq<u8> {
    Seq::new(16, |i: int| ((x >> (((15 - i) * 8) as u128)) & 0xff) as u8)
}

/// The number denoted by a big-endian byte string.
pub open spec fn num_of_be(s: Seq<u8>) -> int
    decreases s.len(),
{
    if s.len() == 0 {
        0
    } else {
        num_of_be(s.drop_last()) * 256 + s.last() as int
    }
}

proof fn lemma_pow2_128_fits()
    ensures
        pow2(128) == u128::MAX + 1,
{
    lemma_pow2_adds(64, 64);
    lemma2_to64_rest();
}

/// Decoding inverts encoding on every 128-bit integer: the bytes of the
/// big-endian form denote exactly the encoded number.
pub proof fn lemma_be_bytes_16_value(x: u128)
    ensures
        num_of_be(be_bytes_16(x)) == x,
{
    lemma_be_bytes_16_prefix(x, 16);
    assert(be_bytes_16(x).take(16) =~= be_bytes_16(x));
    assert(x >> 0u128 == x) by (bit_vector);
}

proof fn lemma_be_bytes_16_prefix(x: u128, i: int)
    requires
        0 <= i <= 16,
    ensures
        num_of_be(be_bytes_16(x).take(i)) == (x >> ((8 * (16 - i)) as u128)) as int,
    decreases i,
{
    if i == 0 {
        assert(x >> 128u128 == 0) by (bit_vector);
    } else {
        lemma_be_bytes_16_prefix(x, i - 1);
        let t = be_bytes_16(x).take(i);
        let k = ((16 - i) * 8) as u128;
        assert(t.drop_last() =~= be_bytes_16(x).take(i - 1));
        assert((x >> (k + 8)) as int * 256 + ((x >> k) & 0xff) as int == (x >> k) as int
            && ((x >> k) & 0xff) < 256) by (bit_vector)
            requires
                k <= 120,
        ;
        assert(((15 - (i - 1)) * 8) as u128 == k);
        assert(t.last() == ((x >> k) & 0xff) as u8);
        assert(t.last() as int == ((x >> k) & 0xff) as int);
        assert((8 * (16 - (i - 1))) as u128 == k + 8);
        assert((8 * (16 - i)) as u128 == k);
    }
}

/// The big-endian 16-byte form of `x`, as persisted for balances and ids.
pub fn u128_to_be_bytes(x: u128) -> (r: Vec<u8>)
    ensures
        r@ == be_bytes_16(x),
        r@.len() == 16,
        num_of_be(r@) == x,
{
    let mut r: Vec<u8> = Vec::new();
    for i in 0..16usize
        invariant
            r@ =~= be_bytes_16(x).take(i as int),
    {
        let sh: u128 = ((15 - i) * 8) as u128;
        r.push(((x >> sh) & 0xff) as u8);
        proof {
            assert(r@ =~= be_bytes_16(x).take(i + 1));
        }
    }
    proof {
        assert(r@ =~= be_bytes_16(x));
        lemma_be_bytes_16_value(x);
    }
    r
}

/// Read a 128-bit integer back from its big-endian 16-byte form. Any other
/// length is corrupted data, not a default.
pub fn slice_to_u128(data: &[u8]) -> (r: Result<u128, ContractError>)
    ensures
        data@.len() == 16 ==> (r matches Ok(v) && v as int == num_of_be(data@)),
        data@.len() != 16 ==> r == Err::<u128, ContractError>(ContractError::CorruptedData),
{
    if data.len() != 16 {
        return Err(ContractError::CorruptedData);
    }
    let mut acc: u128 = 0;
    proof {
        lemma2_to64();
    }
    for i in 0..16usize
        invariant
            data@.len() == 16,
            acc as int == num_of_be(data@.take(i as int)),
            acc < pow2((8 * i) as nat),
    {
        proof {
            lemma_pow2_adds((8 * i) as nat, 8);
            lemma2_to64();
            if 8 * i + 8 < 128 {
                lemma_pow2_strictly_increases((8 * i + 8) as nat, 128);
            }
            lemma_pow2_128_fits();
            assert(acc * 256 <= (pow2((8 * i) as nat) - 1) * 256);
            assert(data@.take(i + 1).drop_last() =~= data@.take(i as int));
        }
        let b = data[i];
        acc = acc * 256 + (b as u128);
    }
    proof {
        assert(data@.take(16) =~= data@);
    }
    Ok(acc)
}

/// The fixed binary form of an event: five 16-byte big-endian numbers, then
/// the organiser's bytes to the end of the record.
pub open spec fn spec_encode_event(e: Event) -> Seq<u8> {
    be_bytes_16(e.id) + be_bytes_16(e.price) + be_bytes_16(e.max_tickets) + be_bytes_16(
        e.tickets_sold,
    ) + be_bytes_16(e.entropy) + e.organiser@
}

pub fn encode_event(e: &Event) -> (r: Vec<u8>)
    ensures
        r@ == spec_encode_event(*e),
{
    let mut r = u128_to_be_bytes(e.id);
    let mut part = u128_to_be_bytes(e.price);
    r.append(&mut part);
    let mut part = u128_to_be_bytes(e.max_tickets);
    r.append(&mut part);
    let mut part = u128_to_be_bytes(e.tickets_sold);
    r.append(&mut part);
    let mut part = u128_to_be_bytes(e.entropy);
    r.append(&mut part);
    let mut part = crate::store::clone_bytes(e.get_organiser().as_bytes());
    r.append(&mut part);
    proof {
        assert(r@ =~= spec_encode_event(*e));
    }
    r
}

/// Read an event back from its fixed binary form: any record shorter than
/// its five numeric fields is corrupted.
pub fn decode_event(data: &[u8]) -> (r: Result<Event, ContractError>)
    ensures
        data@.len() >= 80 ==> (r matches Ok(e) && {
            &&& e.id as int == num_of_be(data@.subrange(0, 16))
            &&& e.price as int == num_of_be(data@.subrange(16, 32))
            &&& e.max_tickets as int == num_of_be(data@.subrange(32, 48))
            &&& e.tickets_sold as int == num_of_be(data@.subrange(48, 64))
            &&& e.entropy as int == num_of_be(data@.subrange(64, 80))
            &&& e.organiser@ == data@.skip(80)
        }),
        data@.len() < 80 ==> r == Err::<Event, ContractError>(ContractError::CorruptedData),
{
    if data.len() < 80 {
        return Err(ContractError::CorruptedData);
    }
    let id = match slice_to_u128(slice_subrange(data, 0, 16)) {
        Ok(v) => v,
        Err(e) => {
            return Err(e);
        },
    };
    let price = match slice_to_u128(slice_subrange(data, 16, 32)) {
        Ok(v) => v,
        Err(e) => {
            return Err(e);
        },
    };
    let max_tickets = match slice_to_u128(slice_subrange(data, 32, 48)) {
        Ok(v) => v,
        Err(e) => {
            return Err(e);
        },
    };
    let tickets_sold = match slice_to_u128(slice_subrange(data, 48, 64)) {
        Ok(v) => v,
        Err(e) => {
            return Err(e);
        },
    };
    let entropy = match slice_to_u128(slice_subrange(data, 64, 80)) {
        Ok(v) => v,
        Err(e) => {
            return Err(e);
        },
    };
    let organiser = AccountId::new(slice_to_vec(slice_subrange(data, 80, data.len())));
    Ok(Event { id, organiser, price, max_tickets, tickets_sold, entropy })
}

/// Reading an encoded event back restores every field.
pub proof fn lemma_event_codec_round_trip(e: Event)
    ensures
        ({
            let s = spec_encode_event(e);
            &&& s.len() == 80 + e.organiser@.len()
            &&& num_of_be(s.subrange(0, 16)) == e.id
            &&& num_of_be(s.subrange(16, 32)) == e.price
            &&& num_of_be(s.subrange(32, 48)) == e.max_tickets
            &&& num_of_be(s.subrange(48, 64)) == e.tickets_sold
            &&& num_of_be(s.subrange(64, 80)) == e.entropy
            &&& s.skip(80) == e.organiser@
        }),
{
    let s = spec_encode_event(e);
    assert(s.subrange(0, 16) =~= be_bytes_16(e.id));
    assert(s.subrange(16, 32) =~= be_bytes_16(e.price));
    assert(s.subrange(32, 48) =~= be_bytes_16(e.max_tickets));
    assert(s.subrange(48, 64) =~= be_bytes_16(e.tickets_sold));
    assert(s.subrange(64, 80) =~= be_bytes_16(e.entropy));
    assert(s.skip(80) =~= e.organiser@);
    lemma_be_bytes_16_value(e.id);
    lemma_be_bytes_16_value(e.price);
    lemma_be_bytes_16_value(e.max_tickets);
    lemma_be_bytes_16_value(e.tickets_sold);
    lemma_be_bytes_16_value(e.entropy);
}

/// The fixed binary form of a ticket: three 16-byte big-endian numbers, the
/// state code byte, the guest's length as a 16-byte number, the guest's
/// bytes, then the holder's key material to the end of the record.
pub open spec fn spec_encode_ticket(t: Ticket) -> Seq<u8> {
    be_bytes_16(t.id) + be_bytes_16(t.event_id) + be_bytes_16(t.secret) + seq![
        spec_state_code(t.state),
    ] + be_bytes_16(t.guest@.len() as u128) + t.guest@ + t.pk@
}

pub fn encode_ticket(t: &Ticket) -> (r: Vec<u8>)
    ensures
        r@ == spec_encode_ticket(*t),
{
    let mut r = u128_to_be_bytes(t.id);
    let mut part = u128_to_be_bytes(t.event_id);
    r.append(&mut part);
    let mut part = u128_to_be_bytes(t.secret);
    r.append(&mut part);
    r.push(state_code(t.state));
    let guest_bytes = t.get_guest().as_bytes();
    let mut part = u128_to_be_bytes(guest_bytes.len() as u128);
    r.append(&mut part);
    let mut part = crate::store::clone_bytes(guest_bytes);
    r.append(&mut part);
    let mut part = crate::store::clone_bytes(t.get_pk());
    r.append(&mut part);
    proof {
        assert(r@ =~= spec_encode_ticket(*t));
    }
    r
}

/// The ticket state a code byte denotes, if any.
pub open spec fn spec_state_of_code(c: u8) -> Option<TicketState> {
    if c == 0 {
        Some(TicketState::Unverified)
    } else if c == 1 {
        Some(TicketState::Validating)
    } else if c == 2 {
        Some(TicketState::Used)
    } else {
        None
    }
}

/// Read a ticket back from its fixed binary form: a record shorter than its
/// fixed fields, an unknown state code, or a guest length past the end of
/// the record is corrupted.
pub fn decode_ticket(data: &[u8]) -> (r: Result<Ticket, ContractError>)
    ensures
        ({
            let glen = num_of_be(data@.subrange(49, 65));
            let state = spec_state_of_code(data@[48]);
            if data@.len() >= 65 && state is Some && 65 + glen <= data@.len() {
                r matches Ok(t) && {
                    &&& t.id as int == num_of_be(data@.subrange(0, 16))
                    &&& t.event_id as int == num_of_be(data@.subrange(16, 32))
                    &&& t.secret as int == num_of_be(data@.subrange(32, 48))
                    &&& Some(t.state) == state
                    &&& t.guest@ == data@.subrange(65, 65 + glen)
                    &&& t.pk@ == data@.skip(65 + glen)
                }
            } else {
                r == Err::<Ticket, ContractError>(ContractError::CorruptedData)
            }
        }),
{
    if data.len() < 65 {
        return Err(ContractError::CorruptedData);
    }
    let id = match slice_to_u128(slice_subrange(data, 0, 16)) {
        Ok(v) => v,
        Err(e) => {
            return Err(e);
        },
    };
    let event_id = match slice_to_u128(slice_subrange(data, 16, 32)) {
        Ok(v) => v,
        Err(e) => {
            return Err(e);
        },
    };
    let secret = match slice_to_u128(slice_subrange(data, 32, 48)) {
        Ok(v) => v,
        Err(e) => {
            return Err(e);
        },
    };
    let code = *slice_index_get(data, 48);
    let state = if code == 0 {
        TicketState::Unverified
    } else if code == 1 {
        TicketState::Validating
    } else if code == 2 {
        TicketState::Used
    } else {
        return Err(ContractError::CorruptedData);
    };
    let glen_raw = match slice_to_u128(slice_subrange(data, 49, 65)) {
        Ok(v) => v,
        Err(e) => {
            return Err(e);
        },
    };
    if glen_raw > (data.len() - 65) as u128 {
        return Err(ContractError::CorruptedData);
    }
    let glen = glen_raw as usize;
    let guest = AccountId::new(slice_to_vec(slice_subrange(data, 65, 65 + glen)));
    let pk = slice_to_vec(slice_subrange(data, 65 + glen, data.len()));
    Ok(Ticket { id, event_id, guest, state, secret, pk })
}

/// Reading an encoded ticket back restores every field.
pub proof fn lemma_ticket_codec_round_trip(t: Ticket)
    ensures
        ({
            let s = spec_encode_ticket(t);
            &&& s.len() == 65 + t.guest@.len() + t.pk@.len()
            &&& num_of_be(s.subrange(0, 16)) == t.id
            &&& num_of_be(s.subrange(16, 32)) == t.event_id
            &&& num_of_be(s.subrange(32, 48)) == t.secret
            &&& spec_state_of_code(s[48]) == Some(t.state)
            &&& num_of_be(s.subrange(49, 65)) == t.guest@.len()
            &&& s.subrange(65, 65 + t.guest@.len() as int) == t.guest@
            &&& s.skip(65 + t.guest@.len() as int) == t.pk@
        }),
{
    broadcast use vstd::std_specs::vec::axiom_spec_len;

    let s = spec_encode_ticket(t);
    assert(vstd::std_specs::vec::spec_vec_len(&t.guest.bytes) == t.guest@.len());
    assert(s.subrange(0, 16) =~= be_bytes_16(t.id));
    assert(s.subrange(16, 32) =~= be_bytes_16(t.event_id));
    assert(s.subrange(32, 48) =~= be_bytes_16(t.secret));
    assert(s[48] == spec_state_code(t.state));
    assert(s.subrange(49, 65) =~= be_bytes_16(t.guest@.len() as u128));
    assert(s.subrange(65, 65 + t.guest@.len() as int) =~= t.guest@);
    assert(s.skip(65 + t.guest@.len() as int) =~= t.pk@);
    lemma_be_bytes_16_value(t.id);
    lemma_be_bytes_16_value(t.event_id);
    lemma_be_bytes_16_value(t.secret);
    lemma_be_bytes_16_value(t.guest@.len() as u128);
}

/// The fixed binary form of the configuration singleton: the two counters,
/// then the owner's bytes to the end of the record.
pub open spec fn spec_encode_config(c: Config) -> Seq<u8> {
    be_bytes_16(c.num_events) + be_bytes_16(c.num_tickets) + c.owner@
}

pub fn encode_config(c: &Config) -> (r: Vec<u8>)
    ensures
        r@ == spec_encode_config(*c),
{
    let mut r = u128_to_be_bytes(c.num_events);
    let mut part = u128_to_be_bytes(c.num_tickets);
    r.append(&mut part);
    let mut part = crate::store::clone_bytes(c.get_owner().as_bytes());
    r.append(&mut part);
    proof {
        assert(r@ =~= spec_encode_config(*c));
    }
    r
}

/// Read the configuration back from its fixed binary form.
pub fn decode_config(data: &[u8]) -> (r: Result<Config, ContractError>)
    ensures
        data@.len() >= 32 ==> (r matches Ok(c) && {
            &&& c.num_events as int == num_of_be(data@.subrange(0, 16))
            &&& c.num_tickets as int == num_of_be(data@.subrange(16, 32))
            &&& c.owner@ == data@.skip(32)
        }),
        data@.len() < 32 ==> r == Err::<Config, ContractError>(ContractError::CorruptedData),
{
    if data.len() < 32 {
        return Err(ContractError::CorruptedData);
    }
    let num_events = match slice_to_u128(slice_subrange(data, 0, 16)) {
        Ok(v) => v,
        Err(e) => {
            return Err(e);
        },
    };
    let num_tickets = match slice_to_u128(slice_subrange(data, 16, 32)) {
        Ok(v) => v,
        Err(e) => {
            return Err(e);
        },
    };
    let owner = AccountId::new(slice_to_vec(slice_subrange(data, 32, data.len())));
    Ok(Config { owner, num_events, num_tickets })
}

/// Reading an encoded configuration back restores every field.
pub proof fn lemma_config_codec_round_trip(c: Config)
    ensures
        ({
            let s = spec_encode_config(c);
            &&& s.len() == 32 + c.owner@.len()
            &&& num_of_be(s.subrange(0, 16)) == c.num_events
            &&& num_of_be(s.subrange(16, 32)) == c.num_tickets
            &&& s.skip(32) == c.owner@
        }),
{
    let s = spec_encode_config(c);
    assert(s.subrange(0, 16) =~= be_bytes_16(c.num_events));
    assert(s.subrange(16, 32) =~= be_bytes_16(c.num_tickets));
    assert(s.skip(32) =~= c.owner@);
    lemma_be_bytes_16_value(c.num_events);
    lemma_be_bytes_16_value(c.num_tickets);
}

/// The fixed binary form of an ordered id list: each id as 16 big-endian
/// bytes, in order.
pub open spec fn spec_encode_ids(s: Seq<u128>) -> Seq<u8>
    decreases s.len(),
{
    if s.len() == 0 {
        Seq::empty()
    } else {
        spec_encode_ids(s.drop_last()) + be_bytes_16(s.last())
    }
}

pub proof fn lemma_encode_ids_len(s: Seq<u128>)
    ensures
        spec_encode_ids(s).len() == 16 * s.len(),
    decreases s.len(),
{
    if s.len() > 0 {
        lemma_encode_ids_len(s.drop_last());
    }
}

pub fn encode_ids(v: &Vec<u128>) -> (r: Vec<u8>)
    ensures
        r@ == spec_encode_ids(v@),
{
    let mut r: Vec<u8> = Vec::new();
    for i in 0..v.len()
        invariant
            r@ == spec_encode_ids(v@.take(i as int)),
    {
        let mut part = u128_to_be_bytes(v[i]);
        r.append(&mut part);
        proof {
            assert(v@.take(i + 1).drop_last() =~= v@.take(i as int));
            assert(v@.take(i + 1).last() == v@[i as int]);
        }
    }
    proof {
        assert(v@.take(v@.len() as int) =~= v@);
    }
    r
}

/// Read an id list back from its fixed binary form: a record that is not a
/// whole number of 16-byte ids is corrupted.
pub fn decode_ids(data: &[u8]) -> (r: Result<Vec<u128>, ContractError>)
    ensures
        data@.len() % 16 == 0 ==> (r matches Ok(v) && {
            &&& v@.len() == data@.len() / 16
            &&& forall|i: int|
                0 <= i < v@.len() ==> (#[trigger] v@[i]) as int == num_of_be(
                    data@.subrange(16 * i, 16 * i + 16),
                )
        }),
        data@.len() % 16 != 0 ==> r == Err::<Vec<u128>, ContractError>(
            ContractError::CorruptedData,
        ),
{
    if data.len() % 16 != 0 {
        return Err(ContractError::CorruptedData);
    }
    let dlen = data.len();
    let count = dlen / 16;
    let mut v: Vec<u128> = Vec::new();
    for i in 0..count
        invariant
            data@.len() == dlen,
            dlen == 16 * count,
            v@.len() == i,
            forall|j: int|
                0 <= j < i ==> (#[trigger] v@[j]) as int == num_of_be(
                    data@.subrange(16 * j, 16 * j + 16),
                ),
    {
        let id = match slice_to_u128(slice_subrange(data, 16 * i, 16 * i + 16)) {
            Ok(x) => x,
            Err(e) => {
                return Err(e);
            },
        };
        v.push(id);
    }
    Ok(v)
}

/// Reading an encoded id list back restores every id in order.
pub proof fn lemma_ids_codec_round_trip(s: Seq<u128>)
    ensures
        spec_encode_ids(s).len() == 16 * s.len(),
        forall|i: int|
            0 <= i < s.len() ==> num_of_be(
                #[trigger] spec_encode_ids(s).subrange(16 * i, 16 * i + 16),
            ) == s[i],
    decreases s.len(),
{
    lemma_encode_ids_len(s);
    if s.len() > 0 {
        lemma_ids_codec_round_trip(s.drop_last());
        lemma_encode_ids_len(s.drop_last());
        let whole = spec_encode_ids(s);
        let head = spec_encode_ids(s.drop_last());
        assert forall|i: int|
            0 <= i < s.len() implies num_of_be(#[trigger] whole.subrange(16 * i, 16 * i + 16))
            == s[i] by {
            if i < s.len() - 1 {
                assert(whole.subrange(16 * i, 16 * i + 16) =~= head.subrange(16 * i, 16 * i + 16));
                assert(s.drop_last()[i] == s[i]);
            } else {
                assert(whole.subrange(16 * i, 16 * i + 16) =~= be_bytes_16(s.last()));
                lemma_be_bytes_16_value(s.last());
            }
        }
    }
}

} // verus!
