use tipping_app::address::tip_jar_address;
use tipping_app::codec::decode_record;
use tipping_app::codec::encode_record;
use tipping_app::codec::RECORD_LEN;
use tipping_app::jar::Pubkey;
use tipping_app::jar::TipJar;

#[test]
fn encoding_has_the_documented_layout() {
    let owner = Pubkey { bytes: [7; 32] };
    let record = TipJar { owner, total_tips: 0x0102030405060708, created_at: -2 };
    let bytes = encode_record(&record);
    assert_eq!(bytes.len(), RECORD_LEN);
    // Discriminator.
    assert_eq!(&bytes[0..8], b"TipJarV1");
    // Owner identity.
    assert_eq!(&bytes[8..40], &[7u8; 32]);
    // total_tips, little-endian.
    assert_eq!(&bytes[40..48], &[8, 7, 6, 5, 4, 3, 2, 1]);
    // created_at, little-endian two's complement.
    assert_eq!(&bytes[48..56], &[0xfe, 0xff, 0xff, 0xff, 0xff, 0xff, 0xff, 0xff]);
}

#[test]
fn decode_returns_what_was_encoded() {
    let mut owner_bytes = [0u8; 32];
    for (i, b) in owner_bytes.iter_mut().enumerate() {
        *b = i as u8;
    }
    let record = TipJar {
        owner: Pubkey { bytes: owner_bytes },
        total_tips: u64::MAX - 3,
        created_at: i64::MIN,
    };
    let bytes = encode_record(&record);
    let back = decode_record(&bytes).unwrap();
    assert_eq!(back.owner.bytes, record.owner.bytes);
    assert_eq!(back.total_tips, record.total_tips);
    assert_eq!(back.created_at, record.created_at);
}

#[test]
fn decode_rejects_wrong_length() {
    let record = TipJar { owner: Pubkey { bytes: [1; 32] }, total_tips: 9, created_at: 3 };
    let mut bytes = encode_record(&record);
    bytes.push(0);
    assert!(decode_record(&bytes).is_none());
    bytes.pop();
    bytes.pop();
    assert!(decode_record(&bytes).is_none());
    assert!(decode_record(&Vec::new()).is_none());
}

#[test]
fn decode_rejects_wrong_discriminator() {
    let record = TipJar { owner: Pubkey { bytes: [1; 32] }, total_tips: 9, created_at: 3 };
    let mut bytes = encode_record(&record);
    bytes[7] = b'2';
    assert!(decode_record(&bytes).is_none());
}

#[test]
fn derived_addresses_are_tagged_and_distinct() {
    let x = Pubkey { bytes: [9; 32] };
    let addr = tip_jar_address(&x);
    assert_eq!(addr.len(), 39);
    assert_eq!(&addr[0..7], b"tip_jar");
    assert_eq!(&addr[7..39], &[9u8; 32]);
    let y = Pubkey { bytes: [10; 32] };
    assert_ne!(tip_jar_address(&x), tip_jar_address(&y));
    assert_eq!(tip_jar_address(&x), tip_jar_address(&x));
}
