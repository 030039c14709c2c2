use dht_node::sha::{compare_keys, gen_key, sha_subtract};

fn key_with(at: usize, value: u8) -> [u8; 20] {
    let mut key = [0u8; 20];
    key[at] = value;
    key
}

#[test]
fn gen_key_is_sha1_of_address() {
    let key = gen_key(&"abc".to_string());
    assert_eq!(
        key,
        [169, 153, 62, 54, 71, 6, 129, 106, 186, 62, 37, 113, 120, 80, 194, 108, 156, 208, 216, 157]
    );
    let key = gen_key(&"127.0.0.1:9156".to_string());
    assert_eq!(
        key,
        [187, 248, 209, 168, 100, 135, 194, 200, 242, 227, 164, 175, 50, 204, 190, 1, 146, 83, 187, 73]
    );
}

#[test]
fn gen_key_of_empty_address() {
    let key = gen_key(&String::new());
    assert_eq!(
        key,
        [218, 57, 163, 238, 94, 107, 75, 13, 50, 85, 191, 239, 149, 96, 24, 144, 175, 216, 7, 9]
    );
}

#[test]
fn gen_key_is_a_function_of_the_address() {
    assert_eq!(gen_key(&"10.0.0.1:80".to_string()), gen_key(&"10.0.0.1:80".to_string()));
    assert_ne!(gen_key(&"10.0.0.1:80".to_string()), gen_key(&"10.0.0.1:81".to_string()));
}

#[test]
fn subtract_byte_by_byte() {
    let mut first = [0u8; 20];
    let mut second = [0u8; 20];
    for i in 0..20 {
        first[i] = 100 + i as u8;
        second[i] = i as u8;
    }
    assert_eq!(sha_subtract(&first, &second), [100u8; 20]);
}

#[test]
fn subtract_wraps_without_borrow() {
    let first = key_with(5, 1);
    let second = key_with(5, 2);
    let mut expected = [0u8; 20];
    expected[5] = 255;
    // no borrow is taken from byte 4
    assert_eq!(sha_subtract(&first, &second), expected);
    assert_eq!(sha_subtract(&[0u8; 20], &[1u8; 20]), [255u8; 20]);
}

#[test]
fn subtract_of_equal_keys_is_zero() {
    let key = gen_key(&"abc".to_string());
    assert_eq!(sha_subtract(&key, &key), [0u8; 20]);
    assert_ne!(sha_subtract(&key, &key_with(0, 169)), [0u8; 20]);
}

#[test]
fn compare_equal_keys() {
    assert_eq!(compare_keys([7u8; 20], [7u8; 20]), 0);
}

#[test]
fn compare_smaller_and_larger() {
    assert_eq!(compare_keys(key_with(19, 1), key_with(19, 2)), -1);
    assert_eq!(compare_keys(key_with(19, 2), key_with(19, 1)), 1);
}

#[test]
fn compare_first_difference_decides() {
    let mut left = key_with(3, 1);
    left[10] = 200;
    let right = key_with(3, 2);
    assert_eq!(compare_keys(left, right), -1);
    assert_eq!(compare_keys(right, left), 1);
}

#[test]
fn compare_is_antisymmetric_and_transitive() {
    let a = key_with(0, 1);
    let b = key_with(0, 2);
    let c = key_with(1, 1);
    let c = {
        let mut k = c;
        k[0] = 2;
        k
    };
    assert_eq!(compare_keys(a, b), -compare_keys(b, a));
    assert_eq!(compare_keys(a, b), -1);
    assert_eq!(compare_keys(b, c), -1);
    assert_eq!(compare_keys(a, c), -1);
}
