use token_ledger::principal::{Principal, MAX_LENGTH};

#[test]
fn principal_keeps_its_bytes() {
    let bytes = [1u8, 2, 3, 0, 5];
    let p = Principal::from_slice(&bytes).unwrap();
    assert_eq!(p.to_vec(), bytes.to_vec());
}

#[test]
fn principal_may_be_empty() {
    let p = Principal::from_slice(&[]).unwrap();
    assert_eq!(p.to_vec(), Vec::<u8>::new());
}

#[test]
fn principal_has_a_longest_form() {
    assert_eq!(MAX_LENGTH, 29);
    let longest = [7u8; 29];
    assert_eq!(Principal::from_slice(&longest).unwrap().to_vec(), longest.to_vec());
    assert!(Principal::from_slice(&[7u8; 30]).is_none());
}

#[test]
fn principals_are_equal_when_their_bytes_are() {
    let a = Principal::from_slice(&[1, 2, 3]).unwrap();
    let b = Principal::from_slice(&[1, 2, 3]).unwrap();
    let c = Principal::from_slice(&[1, 2, 4]).unwrap();
    assert_eq!(a, b);
    assert_ne!(a, c);
}

#[test]
fn a_trailing_zero_makes_another_principal() {
    let short = Principal::from_slice(&[1]).unwrap();
    let long = Principal::from_slice(&[1, 0]).unwrap();
    assert_ne!(short, long);
    assert_ne!(Principal::from_slice(&[]).unwrap(), Principal::from_slice(&[0]).unwrap());
}
