use lispjit::encodings::{LispValue, K_INTEGER_MAX, K_INTEGER_MIN};

#[test]
fn test_integer_round_trips() {
    for v in [0i64, 1, -1, 42, -42, 1000, K_INTEGER_MAX, K_INTEGER_MIN] {
        let encoded = LispValue::from_integer(v);
        assert!(encoded.is_integer());
        assert_eq!(encoded.as_integer(), Some(v));
    }
}

#[test]
fn test_integer_encoding_is_payload_shifted_by_two() {
    assert_eq!(LispValue::from_integer(1).as_raw_word(), 4);
    assert_eq!(LispValue::from_integer(42).as_raw_word(), 168);
    assert_eq!(LispValue::from_integer(-1).as_raw_word(), -4);
}

#[test]
fn test_bool_round_trips() {
    for b in [false, true] {
        let encoded = LispValue::from_bool(b);
        assert!(encoded.is_bool());
        assert_eq!(encoded.as_bool(), Some(b));
    }
    assert_eq!(LispValue::true_val().as_bool(), Some(true));
    assert_eq!(LispValue::false_val().as_bool(), Some(false));
    assert_eq!(LispValue::true_val().as_raw_word(), 0x9f);
    assert_eq!(LispValue::false_val().as_raw_word(), 0x1f);
}

#[test]
fn test_char_round_trips() {
    for c in ['a', 'Z', '@', ' ', '\n', '\x7f', '\0'] {
        let encoded = LispValue::from_char(c);
        assert!(encoded.is_char());
        assert_eq!(encoded.as_char(), Some(c));
    }
    assert_eq!(LispValue::from_char('@').as_raw_word(), 64 * 256 + 0x0f);
}

#[test]
fn test_nil_is_its_reserved_word() {
    let nil = LispValue::nil();
    assert!(nil.is_nil());
    assert_eq!(nil.as_raw_word(), 0x2f);
}

#[test]
fn test_pair_pointer_round_trips() {
    let addr: u64 = 0x1000;
    let encoded = LispValue::from_pair_pointer(addr);
    assert!(encoded.is_pair());
    assert_eq!(encoded.as_pair_pointer(), Some(addr));
    assert_eq!(encoded.as_symbol_pointer(), None);
}

#[test]
fn test_symbol_pointer_round_trips() {
    let addr: u64 = 0x2a8;
    let encoded = LispValue::from_symbol_pointer(addr);
    assert!(encoded.is_symbol());
    assert_eq!(encoded.as_symbol_pointer(), Some(addr));
    assert_eq!(encoded.as_pair_pointer(), None);
}

#[test]
fn test_tags_are_disjoint() {
    let samples = [
        LispValue::from_integer(7),
        LispValue::from_integer(-7),
        LispValue::from_char('x'),
        LispValue::from_bool(true),
        LispValue::from_bool(false),
        LispValue::nil(),
        LispValue::from_pair_pointer(0x1000),
        LispValue::from_symbol_pointer(0x1008),
    ];
    for (i, v) in samples.iter().enumerate() {
        let kind_flags = [
            v.is_integer(),
            v.is_integer(),
            v.is_char(),
            v.is_bool(),
            v.is_bool(),
            v.is_nil(),
            v.is_pair(),
            v.is_symbol(),
        ];
        for (j, flag) in kind_flags.iter().enumerate() {
            // The value satisfies exactly its own kind's check.
            let same_kind = match (i, j) {
                (0, 1) | (1, 0) | (3, 4) | (4, 3) => true,
                _ => i == j,
            };
            assert_eq!(*flag, same_kind, "sample {} against check {}", i, j);
        }
    }
}

#[test]
fn test_mismatched_decoders_return_none() {
    assert_eq!(LispValue::from_char('a').as_integer(), None);
    assert_eq!(LispValue::from_bool(true).as_integer(), None);
    assert_eq!(LispValue::nil().as_integer(), None);
    assert_eq!(LispValue::from_integer(3).as_char(), None);
    assert_eq!(LispValue::from_integer(3).as_bool(), None);
    assert_eq!(LispValue::nil().as_bool(), None);
    assert_eq!(LispValue::nil().as_char(), None);
}

#[test]
fn test_raw_word_round_trips() {
    for w in [0i64, 1, -1, 42, i64::MAX, i64::MIN, 0x2f] {
        assert_eq!(LispValue::from_raw_word(w).as_raw_word(), w);
    }
}
