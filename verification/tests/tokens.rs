use ethabi::{Error, ParamType, Token};

fn uint(last: u8) -> Token {
    let mut w = [0u8; 32];
    w[31] = last;
    Token::Uint(w)
}

#[test]
fn types_check_needs_equal_length() {
    assert!(Token::types_check(&[], &[]));
    assert!(!Token::types_check(&[uint(1)], &[]));
    assert!(!Token::types_check(&[], &[ParamType::Uint(256)]));
    assert!(!Token::types_check(&[uint(1)], &[ParamType::Uint(256), ParamType::Uint(256)]));
}

#[test]
fn types_check_matches_each_pair() {
    let tokens = [uint(1), Token::Bool(true), Token::Address([0; 20])];
    let types = [ParamType::Uint(256), ParamType::Bool, ParamType::Address];
    assert!(Token::types_check(&tokens, &types));
    let types = [ParamType::Uint(256), ParamType::Address, ParamType::Bool];
    assert!(!Token::types_check(&tokens, &types));
}

#[test]
fn type_check_scalars() {
    assert!(Token::Address([0; 20]).type_check(&ParamType::Address));
    assert!(!Token::Address([0; 20]).type_check(&ParamType::Uint(160)));
    assert!(Token::Int([0; 32]).type_check(&ParamType::Int(8)));
    assert!(!Token::Int([0; 32]).type_check(&ParamType::Uint(8)));
    assert!(uint(1).type_check(&ParamType::Uint(256)));
    assert!(!uint(1).type_check(&ParamType::Int(256)));
    assert!(Token::Bool(false).type_check(&ParamType::Bool));
    assert!(Token::String(String::new()).type_check(&ParamType::String));
    assert!(!Token::String(String::new()).type_check(&ParamType::Bytes));
    assert!(Token::Bytes(vec![]).type_check(&ParamType::Bytes));
    assert!(!Token::Bytes(vec![]).type_check(&ParamType::FixedBytes(0)));
}

#[test]
fn type_check_fixed_bytes_may_be_shorter() {
    assert!(Token::FixedBytes(vec![1, 2]).type_check(&ParamType::FixedBytes(2)));
    assert!(Token::FixedBytes(vec![1, 2]).type_check(&ParamType::FixedBytes(3)));
    assert!(!Token::FixedBytes(vec![1, 2]).type_check(&ParamType::FixedBytes(1)));
    assert!(!Token::FixedBytes(vec![1, 2]).type_check(&ParamType::Bytes));
}

#[test]
fn type_check_fixed_array_needs_exact_length() {
    let two = Token::FixedArray(vec![uint(1), uint(2)]);
    let of = |n: usize| ParamType::FixedArray(Box::new(ParamType::Uint(256)), n);
    assert!(two.type_check(&of(2)));
    assert!(!two.type_check(&of(3)));
    assert!(!two.type_check(&of(1)));
    assert!(!two.type_check(&ParamType::Array(Box::new(ParamType::Uint(256)))));
    assert!(!two.type_check(&ParamType::FixedArray(Box::new(ParamType::Bool), 2)));
}

#[test]
fn type_check_array_checks_every_element() {
    let of_uint = ParamType::Array(Box::new(ParamType::Uint(256)));
    assert!(Token::Array(vec![]).type_check(&of_uint));
    assert!(Token::Array(vec![uint(1), uint(2), uint(3)]).type_check(&of_uint));
    assert!(!Token::Array(vec![uint(1), Token::Bool(true), uint(3)]).type_check(&of_uint));
    assert!(!Token::Array(vec![uint(1)]).type_check(&ParamType::FixedArray(
        Box::new(ParamType::Uint(256)),
        1
    )));
    let nested = ParamType::Array(Box::new(ParamType::FixedArray(Box::new(ParamType::Bool), 1)));
    assert!(Token::Array(vec![Token::FixedArray(vec![Token::Bool(true)])]).type_check(&nested));
    assert!(!Token::Array(vec![Token::FixedArray(vec![])]).type_check(&nested));
}

#[test]
fn accessors_hand_out_what_is_held() {
    assert_eq!(Token::Address([3; 20]).to_address(), Ok([3; 20]));
    assert_eq!(Token::FixedBytes(vec![1]).to_fixed_bytes(), Ok(vec![1]));
    assert_eq!(Token::Bytes(vec![2]).to_bytes(), Ok(vec![2]));
    assert_eq!(Token::Int([4; 32]).to_int(), Ok([4; 32]));
    assert_eq!(Token::Uint([5; 32]).to_uint(), Ok([5; 32]));
    assert_eq!(Token::Bool(true).to_bool(), Ok(true));
    assert_eq!(Token::String("x".to_owned()).to_string(), Ok("x".to_owned()));
    assert_eq!(Token::Array(vec![uint(1)]).to_array(), Ok(vec![uint(1)]));
    assert_eq!(Token::FixedArray(vec![uint(2)]).to_array(), Ok(vec![uint(2)]));
}

#[test]
fn accessors_refuse_another_kind() {
    assert_eq!(uint(1).to_address(), Err(Error::TypeMismatch));
    assert_eq!(Token::Bytes(vec![1]).to_fixed_bytes(), Err(Error::TypeMismatch));
    assert_eq!(Token::FixedBytes(vec![1]).to_bytes(), Err(Error::TypeMismatch));
    assert_eq!(uint(1).to_int(), Err(Error::TypeMismatch));
    assert_eq!(Token::Int([0; 32]).to_uint(), Err(Error::TypeMismatch));
    assert_eq!(uint(1).to_bool(), Err(Error::TypeMismatch));
    assert_eq!(Token::Bytes(vec![]).to_string(), Err(Error::TypeMismatch));
    assert_eq!(Token::Bytes(vec![]).to_array(), Err(Error::TypeMismatch));
}

#[test]
fn token_dynamic() {
    assert!(!uint(1).is_dynamic());
    assert!(!Token::FixedBytes(vec![1]).is_dynamic());
    assert!(Token::Bytes(vec![]).is_dynamic());
    assert!(Token::String(String::new()).is_dynamic());
    assert!(Token::Array(vec![]).is_dynamic());
    assert!(!Token::FixedArray(vec![]).is_dynamic());
    assert!(!Token::FixedArray(vec![uint(1)]).is_dynamic());
    assert!(Token::FixedArray(vec![uint(1), Token::Bytes(vec![])]).is_dynamic());
    assert!(Token::FixedArray(vec![Token::FixedArray(vec![Token::Array(vec![])])]).is_dynamic());
}

#[test]
fn param_type_dynamic() {
    assert!(!ParamType::Address.is_dynamic());
    assert!(!ParamType::Uint(256).is_dynamic());
    assert!(!ParamType::FixedBytes(32).is_dynamic());
    assert!(ParamType::Bytes.is_dynamic());
    assert!(ParamType::String.is_dynamic());
    assert!(ParamType::Array(Box::new(ParamType::Bool)).is_dynamic());
    assert!(!ParamType::FixedArray(Box::new(ParamType::Bool), 2).is_dynamic());
    assert!(ParamType::FixedArray(Box::new(ParamType::String), 2).is_dynamic());
    assert!(!ParamType::FixedArray(Box::new(ParamType::String), 0).is_dynamic());
    let nested = ParamType::FixedArray(
        Box::new(ParamType::FixedArray(Box::new(ParamType::Bytes), 1)),
        3,
    );
    assert!(nested.is_dynamic());
}

#[test]
fn head_widths() {
    assert_eq!(ParamType::Uint(8).head_width_checked(), Some(32));
    assert_eq!(ParamType::Bytes.head_width_checked(), Some(32));
    assert_eq!(ParamType::FixedBytes(0).head_width_checked(), Some(32));
    assert_eq!(ParamType::FixedBytes(32).head_width_checked(), Some(32));
    assert_eq!(ParamType::FixedBytes(33).head_width_checked(), Some(64));
    assert_eq!(ParamType::FixedBytes(64).head_width_checked(), Some(64));
    assert_eq!(ParamType::FixedBytes(usize::MAX).head_width_checked(), None);
    let of = |t: ParamType, n: usize| ParamType::FixedArray(Box::new(t), n);
    assert_eq!(of(ParamType::Bool, 3).head_width_checked(), Some(96));
    assert_eq!(of(ParamType::Bool, 0).head_width_checked(), Some(0));
    assert_eq!(of(ParamType::String, 3).head_width_checked(), Some(32));
    assert_eq!(of(of(ParamType::Bool, 2), 3).head_width_checked(), Some(192));
    assert_eq!(of(ParamType::Bool, usize::MAX).head_width_checked(), None);
    assert_eq!(of(of(ParamType::Bool, usize::MAX), 1).head_width_checked(), None);
}

#[test]
fn copies_are_equal() {
    let token = Token::Array(vec![
        Token::FixedArray(vec![Token::String("a".to_owned()), Token::Bytes(vec![1, 2])]),
        Token::FixedArray(vec![Token::String("b".to_owned()), Token::FixedBytes(vec![3])]),
    ]);
    assert_eq!(token.clone(), token);
    assert_eq!(token.duplicate(), token);
    let shape = ParamType::Array(Box::new(ParamType::FixedArray(Box::new(ParamType::Int(8)), 4)));
    assert_eq!(shape.clone(), shape);
    assert_eq!(shape.duplicate(), shape);
}

#[test]
fn error_messages() {
    assert_eq!(Error::InvalidData.message(), "Invalid data");
    assert_eq!(Error::TypeMismatch.message(), "Type mismatch");
    assert_eq!(Error::Utf8Error.message(), "Invalid UTF-8");
    assert_eq!(Error::InvalidName.message(), "Invalid name");
}
