use lobby::player::{Player, PlayerId};

#[test]
fn id_keeps_its_value() {
    let value = 0xa1a2a3a4b1b2c1c2d1d2d3d4d5d6d7d8u128;
    assert_eq!(PlayerId::from_u128(value).as_u128(), value);
    assert_eq!(PlayerId::from_u128(value), PlayerId::from_u128(value));
    assert_ne!(PlayerId::from_u128(value), PlayerId::from_u128(value + 1));
}

#[test]
fn id_text_is_hyphenated_lower_hex() {
    let value = 0xa1a2a3a4b1b2c1c2d1d2d3d4d5d6d7d8u128;
    assert_eq!(PlayerId::from_u128(value).to_string(), "a1a2a3a4-b1b2-c1c2-d1d2-d3d4d5d6d7d8");
    assert_eq!(PlayerId::from_u128(0).to_string(), "00000000-0000-0000-0000-000000000000");
    assert_eq!(PlayerId::from_u128(u128::MAX).to_string(), "ffffffff-ffff-ffff-ffff-ffffffffffff");
    assert_eq!(
        PlayerId::from_u128(0x0123456789abcdef0fedcba987654321).to_string(),
        "01234567-89ab-cdef-0fed-cba987654321"
    );
    assert_eq!(PlayerId::from_u128(1).to_string(), "00000000-0000-0000-0000-000000000001");
}

#[test]
fn id_text_follows_the_digits_of_the_value() {
    let value = 0x5f3c_91d0_7e24_4b8a_9c11_02ab_ffe0_6d73u128;
    let text: Vec<char> = PlayerId::from_u128(value).to_string().chars().collect();
    assert_eq!(text.len(), 36);
    let mut digit = 0u32;
    for (i, c) in text.iter().enumerate() {
        if i == 8 || i == 13 || i == 18 || i == 23 {
            assert_eq!(*c, '-');
        } else {
            let nibble = ((value >> (4 * (31 - digit))) & 0xf) as u32;
            assert_eq!(*c, std::char::from_digit(nibble, 16).unwrap());
            digit += 1;
        }
    }
    assert_eq!(digit, 32);
}

#[test]
fn id_text_is_what_uuid_parses() {
    let id = PlayerId::default();
    let parsed = uuid::Uuid::parse_str(&id.to_string()).expect("the text is a uuid");
    assert_eq!(parsed.as_u128(), id.as_u128());
}

#[test]
fn default_id_is_random_version_four() {
    let a = PlayerId::default();
    let b = PlayerId::default();
    assert_ne!(a, b);
    for id in [a, b] {
        let value = id.as_u128();
        assert_eq!((value >> 76) & 0xf, 4);
        assert_eq!((value >> 62) & 0x3, 2);
        assert_eq!(
            value & 0x0000_0000_0000_f000_c000_0000_0000_0000,
            0x0000_0000_0000_4000_8000_0000_0000_0000
        );
        assert_eq!(uuid::Uuid::from_u128(value).get_version_num(), 4);
    }
}

#[test]
fn new_profile_has_no_name() {
    let a = Player::new();
    let b = Player::new();
    assert_ne!(a.id(), b.id());
    assert_eq!(a.display_name(), None);
    assert_eq!((a.id().as_u128() >> 76) & 0xf, 4);
}

#[test]
fn profile_keeps_id_and_name() {
    let id = PlayerId::from_u128(42);
    let named = Player::from_parts(id, Some(String::from("guppy")));
    assert_eq!(named.id(), id);
    assert_eq!(named.display_name(), Some("guppy"));
    let unnamed = Player::from_parts(id, None);
    assert_eq!(unnamed.id(), id);
    assert_eq!(unnamed.display_name(), None);
    let copy = named.clone();
    assert_eq!(copy.id(), id);
    assert_eq!(copy.display_name(), Some("guppy"));
}
