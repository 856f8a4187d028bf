//! The fixed binary storage codec.

use event_ticketing::account::AccountId;
use event_ticketing::codec::{
    decode_config, decode_event, decode_ids, decode_ticket, encode_config, encode_event,
    encode_ids, encode_ticket, slice_to_u128, u128_to_be_bytes,
};
use event_ticketing::error::ContractError;
use event_ticketing::state::{Config, Event, Ticket, TicketState};

fn account(name: &str) -> AccountId {
    AccountId::new(name.as_bytes().to_vec())
}

#[test]
fn u128_codec_is_big_endian_and_fixed_width() {
    let bytes = u128_to_be_bytes(0x0102030405060708090a0b0c0d0e0f10);
    assert_eq!(
        bytes,
        vec![1, 2, 3, 4, 5, 6, 7, 8, 9, 10, 11, 12, 13, 14, 15, 16]
    );
    assert_eq!(u128_to_be_bytes(0), vec![0u8; 16]);
    assert_eq!(u128_to_be_bytes(u128::MAX), vec![0xffu8; 16]);
}

#[test]
fn u128_codec_round_trips() {
    for x in [0u128, 1, 69, 256, u128::from(u64::MAX) + 1, u128::MAX] {
        assert_eq!(slice_to_u128(&u128_to_be_bytes(x)), Ok(x));
    }
}

#[test]
fn u128_codec_rejects_other_lengths() {
    assert_eq!(slice_to_u128(&[0u8; 15]), Err(ContractError::CorruptedData));
    assert_eq!(slice_to_u128(&[0u8; 17]), Err(ContractError::CorruptedData));
    assert_eq!(slice_to_u128(&[]), Err(ContractError::CorruptedData));
}

#[test]
fn event_codec_round_trips() {
    let event = Event::new(7, account("organiser"), 50, 500, 0x986192837319283719);
    let bytes = encode_event(&event);
    assert_eq!(bytes.len(), 80 + "organiser".len());
    let back = decode_event(&bytes).unwrap();
    assert_eq!(back.get_id(), 7);
    assert_eq!(back.get_price(), 50);
    assert_eq!(back.get_max_tickets(), 500);
    assert_eq!(back.get_tickets_sold(), 0);
    assert_eq!(back.get_entropy(), 0x986192837319283719);
    assert!(back.get_organiser().same_as(&account("organiser")));
}

#[test]
fn event_codec_rejects_short_records() {
    assert!(matches!(decode_event(&[0u8; 79]), Err(ContractError::CorruptedData)));
}

#[test]
fn ticket_codec_round_trips() {
    let mut ticket = Ticket::new(3, 7, account("guest"), b"PEM TEXT".to_vec());
    ticket.start_validation(12345);
    let secret = ticket.secret;
    assert_ne!(secret, 0);
    let bytes = encode_ticket(&ticket);
    let back = decode_ticket(&bytes).unwrap();
    assert_eq!(back.get_id(), 3);
    assert_eq!(back.get_event_id(), 7);
    assert_eq!(back.get_state(), TicketState::Validating);
    assert_eq!(back.secret, secret);
    assert!(back.get_guest().same_as(&account("guest")));
    assert_eq!(back.get_pk(), &b"PEM TEXT".to_vec());
}

#[test]
fn ticket_codec_rejects_corruption() {
    let ticket = Ticket::new(3, 7, account("guest"), b"PEM TEXT".to_vec());
    let bytes = encode_ticket(&ticket);

    // Truncated below the fixed fields.
    assert!(matches!(decode_ticket(&bytes[..64]), Err(ContractError::CorruptedData)));

    // An unknown state code.
    let mut bad_state = bytes.clone();
    bad_state[48] = 9;
    assert!(matches!(decode_ticket(&bad_state), Err(ContractError::CorruptedData)));

    // A guest length pointing past the end of the record.
    let mut bad_len = bytes.clone();
    bad_len[64] = 0xff;
    assert!(matches!(decode_ticket(&bad_len), Err(ContractError::CorruptedData)));
}

#[test]
fn config_codec_round_trips() {
    let mut config = Config::new(account("owner"));
    config.get_next_event_id();
    config.get_next_ticket_id();
    config.get_next_ticket_id();
    let bytes = encode_config(&config);
    let back = decode_config(&bytes).unwrap();
    assert_eq!(back.get_num_events(), 1);
    assert_eq!(back.get_num_tickets(), 2);
    assert!(back.get_owner().same_as(&account("owner")));
    assert!(matches!(decode_config(&bytes[..31]), Err(ContractError::CorruptedData)));
}

#[test]
fn id_list_codec_round_trips() {
    let ids: Vec<u128> = vec![1, 2, 69, u128::MAX];
    let bytes = encode_ids(&ids);
    assert_eq!(bytes.len(), 64);
    assert_eq!(decode_ids(&bytes).unwrap(), ids);
    assert_eq!(decode_ids(&Vec::new()).unwrap(), Vec::<u128>::new());
    assert_eq!(decode_ids(&bytes[..63]), Err(ContractError::CorruptedData));
}
