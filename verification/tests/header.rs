use qmc2_rc4::QMC2RC4;

fn key_hash(key: &[u8]) -> f64 {
    let mut hash = 1u32;
    for &v in key {
        if v == 0 {
            continue;
        }
        let next_hash = hash.wrapping_mul(u32::from(v));
        if next_hash == 0 || next_hash <= hash {
            break;
        }
        hash = next_hash;
    }
    f64::from(hash)
}

fn keystream_generate(key: &[u8], len: usize) -> Vec<u8> {
    let n = key.len();
    let mut state: Vec<u8> = (0..n).map(|i| i as u8).collect();
    let mut j = 0usize;
    for i in 0..n {
        j = (j + usize::from(state[i]) + usize::from(key[i % n])) % n;
        state.swap(i, j);
    }
    let mut i = 0usize;
    let mut j = 0usize;
    let mut stream = Vec::with_capacity(len);
    for _ in 0..len {
        i = (i + 1) % n;
        j = (j + usize::from(state[i])) % n;
        state.swap(i, j);
        let index = usize::from(state[i]) + usize::from(state[j]);
        stream.push(state[index % n]);
    }
    stream
}

fn derive_segment_key(id: u64, seed: u8, hash: f64) -> u64 {
    match seed {
        0 => 0,
        seed => (hash / ((id + 1).wrapping_mul(u64::from(seed)) as f64) * 100.0) as u64,
    }
}

fn header() -> [u8; 256] {
    [
        0x39, 0x5a, 0x4f, 0x75, 0x38, 0x71, 0x37, 0x6b, 0x36, 0x51, 0x53, 0x6d, 0x7a, 0x66,
        0x53, 0x4b, 0x66, 0x50, 0x69, 0x34, 0x67, 0x6c, 0x33, 0x7a, 0x55, 0x62, 0x35, 0x5a,
        0x32, 0x75, 0x4f, 0x68, 0x44, 0x52, 0x6d, 0x65, 0x75, 0x6e, 0x39, 0x52, 0x30, 0x7a,
        0x68, 0x62, 0x73, 0x59, 0x39, 0x48, 0x55, 0x57, 0x73, 0x32, 0x5a, 0x70, 0x64, 0x50,
        0x4e, 0x52, 0x6a, 0x63, 0x4d, 0x39, 0x37, 0x76, 0x72, 0x47, 0x64, 0x4d, 0x62, 0x6d,
        0x58, 0x68, 0x75, 0x47, 0x37, 0x56, 0x69, 0x6b, 0x4a, 0x79, 0x66, 0x63, 0x70, 0x39,
        0x59, 0x34, 0x43, 0x6b, 0x45, 0x32, 0x5a, 0x31, 0x38, 0x77, 0x70, 0x43, 0x51, 0x79,
        0x6a, 0x62, 0x32, 0x33, 0x65, 0x58, 0x4a, 0x4d, 0x33, 0x4e, 0x70, 0x62, 0x62, 0x67,
        0x4c, 0x54, 0x78, 0x64, 0x64, 0x77, 0x6e, 0x72, 0x37, 0x41, 0x54, 0x39, 0x42, 0x52,
        0x47, 0x32, 0x1a, 0xe4, 0x1b, 0x71, 0x68, 0x29, 0xb3, 0x6e, 0xad, 0xc5, 0x28, 0x12,
        0xd6, 0xa4, 0x4b, 0x06, 0x7a, 0xdc, 0x90, 0x15, 0x99, 0xd6, 0xbf, 0x72, 0xa2, 0x30,
        0x37, 0x6b, 0x5c, 0xd6, 0x2f, 0x35, 0x14, 0x8a, 0xd6, 0xfb, 0x9f, 0xee, 0x7d, 0x2d,
        0xb7, 0x37, 0xf2, 0x0b, 0x6e, 0x00, 0xfb, 0xa0, 0x3c, 0x40, 0xf3, 0x36, 0xb2, 0x76,
        0x20, 0x0f, 0x9e, 0xa5, 0xa3, 0x15, 0x60, 0x23, 0x15, 0x29, 0xa1, 0x91, 0xbf, 0xfb,
        0x12, 0x95, 0xaa, 0x8d, 0x92, 0xc6, 0x0b, 0x8d, 0x49, 0x99, 0xa5, 0xe0, 0x05, 0xcf,
        0xb6, 0xac, 0x07, 0x54, 0x58, 0x28, 0xf9, 0x96, 0xd1, 0x9a, 0xfe, 0x0b, 0x3c, 0xfb,
        0x0b, 0x25, 0x7a, 0x43, 0x5a, 0x33, 0xc3, 0x7a, 0xfc, 0x33, 0xa3, 0xc2, 0x65, 0x48,
        0x29, 0x8d, 0x2c, 0x8f, 0x4e, 0x88, 0xfd, 0x44, 0xfd, 0xd5, 0xca, 0xb9, 0x8d, 0x62,
        0x4a, 0x48, 0x20, 0x1du8,
    ]
}

fn alphanumeric_key() -> Vec<u8> {
    (b'a'..=b'z')
        .chain(b'A'..=b'Z')
        .chain(b'0'..=b'9')
        .cycle()
        .take(512)
        .collect::<Vec<u8>>()
}

#[test]
fn test_qmc2_header() {
    let mut data = header();
    let key = alphanumeric_key();

    let cipher = QMC2RC4::new(&key, key_hash, keystream_generate, derive_segment_key).unwrap();
    cipher.decrypt(&mut data, 0);
    assert_eq!(data, [0u8; 256]);
}

#[test]
fn header_comes_back_from_zeros() {
    let key = alphanumeric_key();
    let cipher = QMC2RC4::new(&key, key_hash, keystream_generate, derive_segment_key).unwrap();
    let mut data = [0u8; 256];
    cipher.decrypt(&mut data, 0);
    assert_eq!(data, header());
}

#[test]
fn header_in_two_halves() {
    let key = alphanumeric_key();
    let cipher = QMC2RC4::new(&key, key_hash, keystream_generate, derive_segment_key).unwrap();
    let mut data = header();
    let (head, tail) = data.split_at_mut(100);
    cipher.decrypt(tail, 100);
    cipher.decrypt(head, 0);
    assert_eq!(data, [0u8; 256]);
}
