use test_assets::Sha256Hash;

const ZERO_TEXT: &str = "0000000000000000000000000000000000000000000000000000000000000000";
const COUNT_TEXT: &str = "000102030405060708090a0b0c0d0e0f101112131415161718191a1b1c1d1e1f";
const EMPTY_DIGEST: &str = "e3b0c44298fc1c149afbf4c8996fb92427ae41e4649b934ca495991b7852b855";
const ABC_DIGEST: &str = "ba7816bf8f01cfea414140de5dae2223b00361a396177a9cb410ff61f20015ad";
const HELLO_DIGEST: &str = "b94d27b9934d3e08a52e52d7da7dabfac484efe37a5380ee9088f7ace2efcde9";

fn counting_bytes() -> [u8; 32] {
    let mut bytes = [0u8; 32];
    for (i, b) in bytes.iter_mut().enumerate() {
        *b = i as u8;
    }
    bytes
}

#[test]
fn to_hex_writes_two_lower_case_digits_per_byte() {
    assert_eq!(Sha256Hash::from_digest([0u8; 32]).to_hex(), ZERO_TEXT);
    assert_eq!(Sha256Hash::from_digest(counting_bytes()).to_hex(), COUNT_TEXT);
    assert_eq!(Sha256Hash::from_digest([0xffu8; 32]).to_hex(), "ff".repeat(32));
}

#[test]
fn to_hex_puts_the_high_digit_first() {
    let mut bytes = [0u8; 32];
    bytes[0] = 0xa5;
    bytes[31] = 0x1e;
    let text = Sha256Hash::from_digest(bytes).to_hex();
    assert_eq!(text.len(), 64);
    assert_eq!(&text[0..2], "a5");
    assert_eq!(&text[62..64], "1e");
}

#[test]
fn from_hex_reads_what_to_hex_writes() {
    let hash = Sha256Hash::from_digest(counting_bytes());
    assert_eq!(Sha256Hash::from_hex(&hash.to_hex()), Ok(hash));
    let all = Sha256Hash::from_digest([0xffu8; 32]);
    assert_eq!(Sha256Hash::from_hex(&all.to_hex()), Ok(all));
    let none = Sha256Hash::from_digest([0u8; 32]);
    assert_eq!(Sha256Hash::from_hex(&none.to_hex()), Ok(none));
}

#[test]
fn from_hex_round_trip_over_many_patterns() {
    for seed in 0u32..64 {
        let mut bytes = [0u8; 32];
        for (i, b) in bytes.iter_mut().enumerate() {
            *b = (seed.wrapping_mul(97).wrapping_add(i as u32 * 13) % 256) as u8;
        }
        let hash = Sha256Hash::from_digest(bytes);
        let text = hash.to_hex();
        assert_eq!(text.len(), 64);
        assert!(text.chars().all(|c| c.is_ascii_digit() || ('a'..='f').contains(&c)));
        assert_eq!(Sha256Hash::from_hex(&text), Ok(hash));
    }
}

#[test]
fn from_hex_takes_either_case() {
    let lower = Sha256Hash::from_hex(ABC_DIGEST).unwrap();
    let upper = Sha256Hash::from_hex(&ABC_DIGEST.to_uppercase()).unwrap();
    assert_eq!(lower, upper);
    assert_eq!(upper.to_hex(), ABC_DIGEST);
    let mixed = "BA7816bf8f01CFEA414140de5dae2223b00361a396177a9cb410ff61f20015AD";
    assert_eq!(Sha256Hash::from_hex(mixed).unwrap(), lower);
}

#[test]
fn from_hex_gives_the_bytes_in_order() {
    let hash = Sha256Hash::from_hex(COUNT_TEXT).unwrap();
    assert_eq!(hash, Sha256Hash::from_digest(counting_bytes()));
    assert_ne!(hash, Sha256Hash::from_digest([0u8; 32]));
}

#[test]
fn from_hex_refuses_other_lengths() {
    assert_eq!(Sha256Hash::from_hex(""), Err(()));
    assert_eq!(Sha256Hash::from_hex("0"), Err(()));
    assert_eq!(Sha256Hash::from_hex(&ZERO_TEXT[..63]), Err(()));
    assert_eq!(Sha256Hash::from_hex(&ZERO_TEXT[..62]), Err(()));
    assert_eq!(Sha256Hash::from_hex(&format!("{}0", ZERO_TEXT)), Err(()));
    assert_eq!(Sha256Hash::from_hex(&format!("{}00", ZERO_TEXT)), Err(()));
    assert_eq!(Sha256Hash::from_hex(&format!("{}{}", ZERO_TEXT, ZERO_TEXT)), Err(()));
}

#[test]
fn from_hex_refuses_what_is_no_digit() {
    for bad in ["g", "G", " ", "-", "x", "/", ":", "@", "`", "\n", "\u{e9}", "\u{ff10}"] {
        for place in [0usize, 1, 31, 62, 63] {
            let text: String = ZERO_TEXT
                .chars()
                .enumerate()
                .map(|(i, c)| if i == place { bad.chars().next().unwrap() } else { c })
                .collect();
            assert_eq!(text.chars().count(), 64);
            assert_eq!(Sha256Hash::from_hex(&text), Err(()), "{:?} at {}", bad, place);
        }
    }
}

#[test]
fn from_hex_refuses_a_prefix_sign_or_space() {
    assert_eq!(Sha256Hash::from_hex(&format!("+{}", &ZERO_TEXT[1..])), Err(()));
    assert_eq!(Sha256Hash::from_hex(&format!(" {}", &ZERO_TEXT[1..])), Err(()));
    assert_eq!(Sha256Hash::from_hex(&format!("0x{}", &ZERO_TEXT[2..])), Err(()));
}

#[test]
fn from_digest_keeps_the_bytes() {
    let mut bytes = [0u8; 32];
    bytes[0] = 0xde;
    bytes[1] = 0xad;
    bytes[30] = 0xbe;
    bytes[31] = 0xef;
    let text = Sha256Hash::from_digest(bytes).to_hex();
    assert!(text.starts_with("dead0000"));
    assert!(text.ends_with("0000beef"));
}

#[test]
fn of_content_is_the_sha256_digest() {
    assert_eq!(Sha256Hash::of_content(b"").to_hex(), EMPTY_DIGEST);
    assert_eq!(Sha256Hash::of_content(b"abc").to_hex(), ABC_DIGEST);
    assert_eq!(Sha256Hash::of_content(b"hello world").to_hex(), HELLO_DIGEST);
}

#[test]
fn of_content_of_thirty_two_bytes_is_not_those_bytes() {
    let bytes = counting_bytes();
    assert_ne!(Sha256Hash::of_content(&bytes), Sha256Hash::from_digest(bytes));
    assert_eq!(
        Sha256Hash::of_content(&bytes).to_hex(),
        "630dcd2966c4336691125448bbb25b4ff412a49c732db2c8abc1b8581bd710dd"
    );
}

#[test]
fn equality_is_byte_for_byte() {
    let a = Sha256Hash::from_digest(counting_bytes());
    let b = Sha256Hash::from_digest(counting_bytes());
    assert_eq!(a, b);
    for place in [0usize, 15, 31] {
        let mut bytes = counting_bytes();
        bytes[place] ^= 1;
        assert_ne!(a, Sha256Hash::from_digest(bytes));
    }
}

#[test]
fn clone_is_equal() {
    let a = Sha256Hash::from_hex(HELLO_DIGEST).unwrap();
    let b = a.clone();
    assert_eq!(a, b);
    assert_eq!(b.to_hex(), HELLO_DIGEST);
}
