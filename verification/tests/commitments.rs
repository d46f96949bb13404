use deap::commit::{commit_bytes, encode_bits, encode_labels, pad};

#[test]
fn commitment_is_a_digest() {
    // A commitment is a 32-byte digest even of a long payload; handing the
    // payload back unchanged would fail this.
    let data: Vec<u8> = (0..200u16).map(|x| (x % 251) as u8).collect();
    let c = commit_bytes(&data, 7);
    assert_eq!(c.len(), 32);
    assert_ne!(&c[..], &data[..32.min(data.len())]);
}

#[test]
fn commitment_binds_data_and_nonce() {
    let data: Vec<u8> = vec![1, 2, 3, 4];
    let other: Vec<u8> = vec![1, 2, 3, 5];
    let c1 = commit_bytes(&data, 7);
    let c2 = commit_bytes(&data, 7);
    assert_eq!(c1, c2);
    assert_ne!(c1, commit_bytes(&other, 7));
    assert_ne!(c1, commit_bytes(&data, 8));
}

#[test]
fn pads_are_domain_separated() {
    let p0 = pad(0, 3, 10, 20);
    let p1 = pad(1, 3, 10, 20);
    assert_ne!(p0, p1);
    assert_eq!(p0, pad(0, 3, 10, 20));
    assert_ne!(p0, pad(0, 4, 10, 20));
    assert_ne!(p0, pad(0, 3, 20, 10));
}

#[test]
fn encodings_are_exact() {
    let bits = vec![true, false, true];
    assert_eq!(encode_bits(&bits), vec![1u8, 0, 1]);
    let labels = vec![0x0102030405060708u64];
    assert_eq!(
        encode_labels(&labels),
        vec![8u8, 7, 6, 5, 4, 3, 2, 1]
    );
}
