use beijing_bus::cipher::{apply_keystream, key_schedule, Cipher, CipherError};
use rustc_serialize::base64::{ToBase64, STANDARD};

fn rc4(key: &[u8], data: &[u8]) -> Vec<u8> {
    let table = key_schedule(key);
    let mut out = vec![0u8; data.len()];
    apply_keystream(table, data, &mut out);
    out
}

fn hex(bytes: &[u8]) -> String {
    bytes.iter().map(|b| format!("{:02x}", b)).collect()
}

#[test]
fn it_works() {}

#[test]
fn test_cipher_aibang_decrypt() {
    let mut cipher = Cipher::new_with_aibang_key(1413772960);
    let _out = cipher.decrypt(b"ycCx9MhBlIC3XYEfN4ZZ");
    assert_eq!(cipher.decrypt_str("ycCx9MhBlIC3XYEfN4ZZ").unwrap(), "三家店东口");
}

#[test]
fn rc4_known_vectors() {
    assert_eq!(hex(&rc4(b"Key", b"Plaintext")), "bbf316e8d940af0ad3");
    assert_eq!(hex(&rc4(b"Wiki", b"pedia")), "1021bf0420");
    assert_eq!(hex(&rc4(b"Secret", b"Attack at dawn")), "45a01f645fc35b383552544b9bf5");
}

#[test]
fn key_schedule_is_a_permutation() {
    let table = key_schedule(b"aibang");
    assert_eq!(table.len(), 256);
    let mut seen = [false; 256];
    for &b in table.iter() {
        assert!(!seen[b as usize]);
        seen[b as usize] = true;
    }
    let cipher = Cipher::new_with_aibang_key(369);
    let table = cipher.make_translate_table();
    let mut sorted = table.clone();
    sorted.sort();
    assert_eq!(sorted, (0..=255u8).collect::<Vec<u8>>());
}

#[test]
fn translate_table_is_keyed_by_md5_hex() {
    // md5("") = d41d8cd98f00b204e9800998ecf8427e
    let cipher = Cipher::new();
    assert_eq!(cipher.make_translate_table(), key_schedule(b"d41d8cd98f00b204e9800998ecf8427e"));
    // md5("aibang") differs from the text itself
    let mut keyed = Cipher::new();
    keyed.set_aibang_key("");
    assert_ne!(keyed.make_translate_table(), key_schedule(b"aibang"));
}

#[test]
fn keys_are_prefixed() {
    let c = Cipher::new();
    assert_eq!(c.key, "");
    let c = Cipher::new_with_aibang_key(1413772960);
    assert_eq!(c.key, "aibang1413772960");
    let c = Cipher::new_with_aibang_key(0);
    assert_eq!(c.key, "aibang0");
    let mut c = Cipher::new();
    c.set_aibang_key("369");
    assert_eq!(c.key, "aibang369");
    c.set_aibang_key("北京");
    assert_eq!(c.key, "aibang北京");
}

#[test]
fn translate_twice_gives_input_back() {
    let cipher = Cipher::new_with_aibang_key(42);
    let plain = "三家店东口 and more".as_bytes();
    let mut once = vec![0u8; plain.len()];
    assert_eq!(cipher.translate(plain, &mut once), plain.len());
    assert_ne!(&once[..], plain);
    let mut twice = vec![0u8; plain.len()];
    cipher.translate(&once, &mut twice);
    assert_eq!(&twice[..], plain);
}

#[test]
fn translate_keeps_the_tail_of_out() {
    let cipher = Cipher::new_with_aibang_key(7);
    let mut out = vec![9u8; 6];
    assert_eq!(cipher.translate(b"abc", &mut out), 3);
    assert_eq!(&out[3..], &[9u8, 9, 9]);
}

#[test]
fn decrypt_round_trip_and_errors() {
    let mut cipher = Cipher::new_with_aibang_key(1234);
    let mut enc = vec![0u8; 5];
    cipher.translate(b"hello", &mut enc);
    let text = enc.to_base64(STANDARD);
    assert_eq!(cipher.decrypt(text.as_bytes()).unwrap(), b"hello".to_vec());
    assert_eq!(cipher.decrypt_str(&text).unwrap(), "hello");
    assert_eq!(cipher.key, "aibang1234");
    assert_eq!(cipher.decrypt(b"!!!!"), Err(CipherError::InvalidBase64));
    assert_eq!(cipher.decrypt_str("a"), Err(CipherError::InvalidBase64));
    assert_eq!(cipher.decrypt(b"").unwrap(), Vec::<u8>::new());
    let mut bad = vec![0u8; 2];
    cipher.translate(&[0xff, 0xfe], &mut bad);
    let bad_text = bad.to_base64(STANDARD);
    assert_eq!(cipher.decrypt(bad_text.as_bytes()).unwrap(), vec![0xff, 0xfe]);
    assert_eq!(cipher.decrypt_str(&bad_text), Err(CipherError::InvalidUtf8));
}
