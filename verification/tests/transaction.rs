use rust_chain::hashing::Hashable;
use rust_chain::{Output, Transaction};

fn output(to_addr: &str, value: u64) -> Output {
    Output { to_addr: to_addr.to_string(), value }
}

#[test]
fn test_output_bytes_and_hash_vector() {
    // The byte stream is the address's UTF-8 bytes followed by the
    // big-endian value.
    let o = output("Alice", 50);
    let bytes = o.bytes();
    assert_eq!(bytes, b"Alice\x00\x00\x00\x00\x00\x00\x00\x32".to_vec());
    // SHA-256 of that byte stream, as an independently computed vector.
    let expected = hex::decode("a1742675f7b84b0c8ffa0371b4d3109847b484203ca16e7127f3f9261c2a6933")
        .unwrap();
    assert_eq!(o.hash(), expected);
    assert_eq!(o.hash().len(), 32);
}

#[test]
fn test_transaction_values_and_hashes() {
    let t = Transaction {
        inputs: vec![output("Alice", 50), output("Bob", 20)],
        outputs: vec![output("Carol", 55)],
    };
    assert_eq!(t.input_value(), 70);
    assert_eq!(t.output_value(), 55);
    assert!(!t.is_coinbase());

    let input_hashes = t.input_hashes();
    assert_eq!(input_hashes.len(), 2);
    assert_eq!(input_hashes[0], output("Alice", 50).hash());
    assert_eq!(input_hashes[1], output("Bob", 20).hash());
    let output_hashes = t.output_hashes();
    assert_eq!(output_hashes.len(), 1);
    assert_eq!(output_hashes[0], output("Carol", 55).hash());

    // The transaction's bytes are the inputs' bytes then the outputs' bytes,
    // in order, with no length prefixes.
    let mut expected_bytes = output("Alice", 50).bytes();
    expected_bytes.extend(output("Bob", 20).bytes());
    expected_bytes.extend(output("Carol", 55).bytes());
    assert_eq!(t.bytes(), expected_bytes);

    let coinbase = Transaction { inputs: vec![], outputs: vec![output("Miner", 1)] };
    assert!(coinbase.is_coinbase());
    assert_eq!(coinbase.input_value(), 0);
}
