use necko3::address::{derive_address, evm_address_from_pubkey};

const XPUB: &str = "xpub661MyMwAqRbcFtXgS5sYJABqqG9YLmC4Q1Rdap9gSE8NqtwybGhePY2gZ29ESFjqJoCu1Rupje8YtGqsefD265TMg7usUDFdp6W1EGMcet8";

#[test]
fn address_of_known_public_key() {
    // The secp256k1 generator point is the public key of the smallest
    // private key; its checksummed address is well known.
    let pubkey: Vec<u8> = vec![
        0x04, 0x79, 0xbe, 0x66, 0x7e, 0xf9, 0xdc, 0xbb, 0xac, 0x55, 0xa0, 0x62, 0x95, 0xce, 0x87,
        0x0b, 0x07, 0x02, 0x9b, 0xfc, 0xdb, 0x2d, 0xce, 0x28, 0xd9, 0x59, 0xf2, 0x81, 0x5b, 0x16,
        0xf8, 0x17, 0x98, 0x48, 0x3a, 0xda, 0x77, 0x26, 0xa3, 0xc4, 0x65, 0x5d, 0xa4, 0xfb, 0xfc,
        0x0e, 0x11, 0x08, 0xa8, 0xfd, 0x17, 0xb4, 0x48, 0xa6, 0x85, 0x54, 0x19, 0x9c, 0x47, 0xd0,
        0x8f, 0xfb, 0x10, 0xd4, 0xb8,
    ];
    let addr = evm_address_from_pubkey(&pubkey);
    assert_eq!(addr, "0x7E5F4552091A69125d5DfCb7b8C2659029395Bdf");
}

#[test]
fn derive_address_is_deterministic() {
    let a0 = derive_address(XPUB, 0).unwrap();
    let a0_again = derive_address(XPUB, 0).unwrap();
    let a1 = derive_address(XPUB, 1).unwrap();
    assert_eq!(a0, a0_again);
    assert_ne!(a0, a1);
    assert!(a0.starts_with("0x"));
    assert_eq!(a0.len(), 42);
    assert_eq!(a1.len(), 42);
}

#[test]
fn derive_address_rejects_bad_keys() {
    assert_eq!(derive_address("not-an-xpub", 0), None);
    // Hardened indices cannot be derived from a public key.
    assert_eq!(derive_address(XPUB, 0x8000_0000), None);
}

#[test]
fn derive_address_rejects_short_keys() {
    // Strings far below an extended key's length are refused outright;
    // none of them may crash the call.
    assert_eq!(derive_address("", 0), None);
    assert_eq!(derive_address("1", 0), None);
    assert_eq!(derive_address("2zzz", 0), None);
    assert_eq!(derive_address("xpub", 0), None);
}
