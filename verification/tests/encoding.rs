use ethabi::{decode, encode, Error, ParamType, Token};

fn word(last: u8) -> Vec<u8> {
    let mut w = vec![0u8; 32];
    w[31] = last;
    w
}

fn uint(last: u8) -> Token {
    let mut w = [0u8; 32];
    w[31] = last;
    Token::Uint(w)
}

fn padded_right(bytes: &[u8]) -> Vec<u8> {
    let mut w = bytes.to_vec();
    while w.len() % 32 != 0 {
        w.push(0);
    }
    w
}

fn concat(parts: &[Vec<u8>]) -> Vec<u8> {
    let mut all = Vec::new();
    for p in parts {
        all.extend_from_slice(p);
    }
    all
}

#[test]
fn encode_uint_one() {
    let encoded = encode(&[uint(1)]);
    assert_eq!(encoded.len(), 32);
    assert_eq!(encoded, word(1));
}

#[test]
fn encode_bytes_three() {
    let encoded = encode(&[Token::Bytes(vec![1, 2, 3])]);
    let expected = concat(&[word(0x20), word(3), padded_right(&[1, 2, 3])]);
    assert_eq!(encoded.len(), 96);
    assert_eq!(encoded, expected);
}

#[test]
fn encode_array_of_two_uints() {
    let encoded = encode(&[Token::Array(vec![uint(1), uint(2)])]);
    let expected = concat(&[word(0x20), word(2), word(1), word(2)]);
    assert_eq!(encoded, expected);
}

#[test]
fn encode_nothing() {
    assert_eq!(encode(&[]), Vec::<u8>::new());
}

#[test]
fn encode_address() {
    let encoded = encode(&[Token::Address([0x11; 20])]);
    let mut expected = vec![0u8; 12];
    expected.extend_from_slice(&[0x11; 20]);
    assert_eq!(encoded, expected);
}

#[test]
fn encode_bool() {
    assert_eq!(encode(&[Token::Bool(true)]), word(1));
    assert_eq!(encode(&[Token::Bool(false)]), word(0));
}

#[test]
fn encode_int_is_the_word_itself() {
    let minus_one = [0xff; 32];
    assert_eq!(encode(&[Token::Int(minus_one)]), vec![0xff; 32]);
}

#[test]
fn encode_fixed_bytes_pads_right() {
    let encoded = encode(&[Token::FixedBytes(vec![0x12, 0x34])]);
    assert_eq!(encoded, padded_right(&[0x12, 0x34]));
    assert_eq!(encoded.len(), 32);
}

#[test]
fn encode_empty_fixed_bytes_takes_one_word() {
    assert_eq!(encode(&[Token::FixedBytes(vec![])]), vec![0u8; 32]);
}

#[test]
fn encode_long_fixed_bytes_takes_whole_words() {
    let encoded = encode(&[Token::FixedBytes(vec![7u8; 33])]);
    assert_eq!(encoded, padded_right(&[7u8; 33]));
    assert_eq!(encoded.len(), 64);
}

#[test]
fn encode_string() {
    let encoded = encode(&[Token::String("gavofyork".to_owned())]);
    let expected = concat(&[word(0x20), word(9), padded_right(b"gavofyork")]);
    assert_eq!(encoded, expected);
}

#[test]
fn encode_empty_bytes() {
    let encoded = encode(&[Token::Bytes(vec![])]);
    assert_eq!(encoded, concat(&[word(0x20), word(0)]));
}

#[test]
fn encode_bytes_of_a_whole_word_adds_no_padding() {
    let encoded = encode(&[Token::Bytes(vec![9u8; 32])]);
    assert_eq!(encoded, concat(&[word(0x20), word(32), vec![9u8; 32]]));
}

#[test]
fn encode_static_fixed_array_inline() {
    let encoded = encode(&[Token::FixedArray(vec![uint(1), uint(2)]), uint(3)]);
    assert_eq!(encoded, concat(&[word(1), word(2), word(3)]));
}

#[test]
fn encode_dynamic_fixed_array_behind_an_offset() {
    let tokens = [Token::FixedArray(vec![
        Token::Bytes(vec![0xaa]),
        Token::Bytes(vec![0xbb]),
    ])];
    let expected = concat(&[
        word(0x20),
        word(0x40),
        word(0x80),
        word(1),
        padded_right(&[0xaa]),
        word(1),
        padded_right(&[0xbb]),
    ]);
    assert_eq!(encode(&tokens), expected);
}

#[test]
fn encode_static_then_dynamic_then_static() {
    let tokens = [uint(5), Token::Bytes(vec![1, 2, 3]), Token::Bool(true)];
    let expected = concat(&[
        word(5),
        word(0x60),
        word(1),
        word(3),
        padded_right(&[1, 2, 3]),
    ]);
    assert_eq!(encode(&tokens), expected);
}

#[test]
fn encode_two_dynamic_values() {
    let tokens = [Token::Bytes(vec![1; 33]), Token::String("ab".to_owned())];
    let expected = concat(&[
        word(0x40),
        word(0xa0),
        word(33),
        padded_right(&[1; 33]),
        word(2),
        padded_right(b"ab"),
    ]);
    assert_eq!(encode(&tokens), expected);
}

#[test]
fn encode_array_of_arrays() {
    let tokens = [Token::Array(vec![
        Token::Array(vec![uint(1)]),
        Token::Array(vec![uint(2), uint(3)]),
    ])];
    let expected = concat(&[
        word(0x20),
        word(2),
        word(0x40),
        word(0x80),
        word(1),
        word(1),
        word(2),
        word(2),
        word(3),
    ]);
    assert_eq!(encode(&tokens), expected);
}

#[test]
fn encode_empty_array() {
    assert_eq!(encode(&[Token::Array(vec![])]), concat(&[word(0x20), word(0)]));
}

#[test]
fn encode_large_offset_spans_two_bytes() {
    let tokens = [Token::Bytes(vec![1u8; 300]), Token::Bytes(vec![2u8])];
    let encoded = encode(&tokens);
    // first tail: 32 + 320 bytes, so the second begins at 64 + 352 = 416 = 0x01a0
    let mut second = vec![0u8; 32];
    second[30] = 0x01;
    second[31] = 0xa0;
    assert_eq!(&encoded[32..64], &second[..]);
    assert_eq!(encoded.len(), 64 + 352 + 64);
}

#[test]
fn decode_array_of_two_uints() {
    let encoded = encode(&[Token::Array(vec![uint(1), uint(2)])]);
    let types = [ParamType::Array(Box::new(ParamType::Uint(256)))];
    assert_eq!(decode(&types, &encoded), Ok(vec![Token::Array(vec![uint(1), uint(2)])]));
}

#[test]
fn decode_short_buffer_is_invalid_data() {
    let types = [ParamType::Uint(256), ParamType::Bool];
    assert_eq!(decode(&types, &word(1)), Err(Error::InvalidData));
    assert_eq!(decode(&types, &[]), Err(Error::InvalidData));
    assert_eq!(decode(&[ParamType::Address], &[0u8; 31]), Err(Error::InvalidData));
}

#[test]
fn decode_offset_past_the_end_is_invalid_data() {
    let types = [ParamType::Bytes];
    assert_eq!(decode(&types, &word(0x40)), Err(Error::InvalidData));
    assert_eq!(decode(&types, &[0xffu8; 32]), Err(Error::InvalidData));
}

#[test]
fn decode_length_past_the_end_is_invalid_data() {
    let types = [ParamType::Bytes];
    let data = concat(&[word(0x20), word(33), vec![0u8; 32]]);
    assert_eq!(decode(&types, &data), Err(Error::InvalidData));
    let types = [ParamType::Array(Box::new(ParamType::Uint(8)))];
    let data = concat(&[word(0x20), word(2), word(1)]);
    assert_eq!(decode(&types, &data), Err(Error::InvalidData));
    let data = concat(&[word(0x20), vec![0xffu8; 32]]);
    assert_eq!(decode(&types, &data), Err(Error::InvalidData));
}

#[test]
fn decode_missing_padding_is_invalid_data() {
    let types = [ParamType::Bytes];
    let data = concat(&[word(0x20), word(3), vec![1, 2, 3]]);
    assert_eq!(decode(&types, &data), Err(Error::InvalidData));
}

#[test]
fn decode_no_types_reads_nothing() {
    assert_eq!(decode(&[], &[]), Ok(vec![]));
    assert_eq!(decode(&[], &[1, 2, 3]), Ok(vec![]));
}

#[test]
fn decode_bool_must_be_zero_or_one() {
    assert_eq!(decode(&[ParamType::Bool], &word(1)), Ok(vec![Token::Bool(true)]));
    assert_eq!(decode(&[ParamType::Bool], &word(0)), Ok(vec![Token::Bool(false)]));
    assert_eq!(decode(&[ParamType::Bool], &word(2)), Err(Error::InvalidData));
    let mut high = word(1);
    high[0] = 1;
    assert_eq!(decode(&[ParamType::Bool], &high), Err(Error::InvalidData));
}

#[test]
fn decode_text_that_is_not_utf8() {
    let data = concat(&[word(0x20), word(2), padded_right(&[0xc3, 0x28])]);
    assert_eq!(decode(&[ParamType::String], &data), Err(Error::Utf8Error));
}

#[test]
fn decode_text() {
    let data = concat(&[word(0x20), word(9), padded_right(b"gavofyork")]);
    assert_eq!(
        decode(&[ParamType::String], &data),
        Ok(vec![Token::String("gavofyork".to_owned())])
    );
    let accented = "h\u{e9}llo \u{4e16}\u{754c}";
    let data = encode(&[Token::String(accented.to_owned())]);
    assert_eq!(decode(&[ParamType::String], &data), Ok(vec![Token::String(accented.to_owned())]));
}

#[test]
fn decode_first_failure_wins() {
    // the text is bad and the boolean after it is bad too
    let data = concat(&[word(0x40), word(2), word(2), padded_right(&[0xc3, 0x28])]);
    assert_eq!(
        decode(&[ParamType::String, ParamType::Bool], &data),
        Err(Error::Utf8Error)
    );
    let data = concat(&[word(2), word(0x40), word(2), padded_right(&[0xc3, 0x28])]);
    assert_eq!(
        decode(&[ParamType::Bool, ParamType::String], &data),
        Err(Error::InvalidData)
    );
}

#[test]
fn decode_address_takes_the_last_twenty_bytes() {
    let mut data = vec![0u8; 12];
    data.extend_from_slice(&[0x22; 20]);
    assert_eq!(decode(&[ParamType::Address], &data), Ok(vec![Token::Address([0x22; 20])]));
}

#[test]
fn decode_fixed_bytes_takes_the_first_bytes() {
    let data = padded_right(&[1, 2, 3]);
    assert_eq!(
        decode(&[ParamType::FixedBytes(3)], &data),
        Ok(vec![Token::FixedBytes(vec![1, 2, 3])])
    );
}

#[test]
fn decode_array_longer_than_the_data_is_refused() {
    let types = [ParamType::Array(Box::new(ParamType::Uint(256)))];
    let mut length = vec![0u8; 32];
    length[23] = 1;
    let data = concat(&[word(0x20), length]);
    assert_eq!(decode(&types, &data), Err(Error::InvalidData));
}

#[test]
fn decode_array_of_elements_that_take_no_room_must_be_empty() {
    let inner = ParamType::FixedArray(Box::new(ParamType::Uint(256)), 0);
    let types = [ParamType::Array(Box::new(inner))];
    let data = concat(&[word(0x20), word(0)]);
    assert_eq!(decode(&types, &data), Ok(vec![Token::Array(vec![])]));
    let data = concat(&[word(0x20), word(1)]);
    assert_eq!(decode(&types, &data), Err(Error::InvalidData));
    let data = concat(&[word(0x20), word(1), vec![0u8; 64]]);
    assert_eq!(decode(&types, &data), Err(Error::InvalidData));
    let encoded = encode(&[Token::Array(vec![Token::FixedArray(vec![])])]);
    assert_eq!(decode(&types, &encoded), Err(Error::InvalidData));
}

fn round_trip(types: &[ParamType], tokens: Vec<Token>) {
    let encoded = encode(&tokens);
    assert_eq!(decode(types, &encoded), Ok(tokens));
}

#[test]
fn round_trip_scalars() {
    round_trip(
        &[
            ParamType::Address,
            ParamType::Int(256),
            ParamType::Uint(8),
            ParamType::Bool,
            ParamType::FixedBytes(5),
            ParamType::FixedBytes(32),
            ParamType::FixedBytes(40),
        ],
        vec![
            Token::Address([0xab; 20]),
            Token::Int([0xfe; 32]),
            uint(200),
            Token::Bool(true),
            Token::FixedBytes(vec![1, 2, 3, 4, 5]),
            Token::FixedBytes(vec![6; 32]),
            Token::FixedBytes(vec![7; 40]),
        ],
    );
}

#[test]
fn round_trip_nested() {
    let inner = ParamType::FixedArray(Box::new(ParamType::String), 2);
    let types = [
        ParamType::Array(Box::new(inner)),
        ParamType::Uint(256),
        ParamType::FixedArray(Box::new(ParamType::FixedArray(Box::new(ParamType::Bool), 2)), 2),
        ParamType::Bytes,
        ParamType::Array(Box::new(ParamType::Array(Box::new(ParamType::Address)))),
    ];
    let pair = |a: &str, b: &str| {
        Token::FixedArray(vec![Token::String(a.to_owned()), Token::String(b.to_owned())])
    };
    let bools = |a: bool, b: bool| Token::FixedArray(vec![Token::Bool(a), Token::Bool(b)]);
    let tokens = vec![
        Token::Array(vec![pair("one", "two"), pair("", "a somewhat longer text, over one word long")]),
        uint(77),
        Token::FixedArray(vec![bools(true, false), bools(false, true)]),
        Token::Bytes(vec![0xde, 0xad, 0xbe, 0xef]),
        Token::Array(vec![
            Token::Array(vec![]),
            Token::Array(vec![Token::Address([1; 20]), Token::Address([2; 20])]),
        ]),
    ];
    round_trip(&types, tokens);
}

#[test]
fn round_trip_empty_fixed_array() {
    round_trip(
        &[ParamType::FixedArray(Box::new(ParamType::String), 0), ParamType::Uint(256)],
        vec![Token::FixedArray(vec![]), uint(9)],
    );
}

#[test]
fn short_fixed_bytes_do_not_come_back_as_they_were() {
    let encoded = encode(&[Token::FixedBytes(vec![1, 2])]);
    assert_eq!(
        decode(&[ParamType::FixedBytes(4)], &encoded),
        Ok(vec![Token::FixedBytes(vec![1, 2, 0, 0])])
    );
}
