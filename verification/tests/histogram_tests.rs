use approx_shannon_entropy::histogram::Histogram;

#[test]
fn histogram_counts_concrete() {
    let pattern = [0, 0, 0, 1, 1, 2, 3, 4];
    let hist = Histogram::from_bytes(&pattern);
    assert_eq!(hist.count(0), 3);
    assert_eq!(hist.count(1), 2);
    assert_eq!(hist.count(2), 1);
    assert_eq!(hist.count(3), 1);
    assert_eq!(hist.count(4), 1);
    assert_eq!(hist.count(5), 0);
    assert_eq!(hist.count(255), 0);
}

#[test]
fn histogram_counts_sum_to_length() {
    let pattern = [0, 0, 0, 0, 1, 1, 2, 2, 3, 4, 5];
    let hist = Histogram::from_bytes(&pattern);
    let mut sum: usize = 0;
    for v in 0..=255u8 {
        sum += hist.count(v);
    }
    assert_eq!(sum, pattern.len());
}

#[test]
fn nonzero_counts_sum_to_length() {
    let pattern = [0, 0, 0, 0, 1, 1, 2, 2, 3, 4, 5];
    let hist = Histogram::from_bytes(&pattern);
    let sum: usize = hist.nonzero_counts().into_iter().sum();
    assert_eq!(sum, pattern.len());
}

#[test]
fn nonzero_counts_domain_non_empty() {
    let samples: [&[u8]; 4] = [&[7], &[0, 255], &[3, 3, 9, 9, 27], &[0, 0, 0, 0, 1, 1, 2, 2, 3, 4, 5]];
    for pattern in samples {
        let counts = Histogram::from_bytes(pattern).nonzero_counts();
        assert!(!counts.is_empty());
        for c in counts {
            assert!(1 <= c && c <= pattern.len());
        }
    }
}

#[test]
fn nonzero_counts_slot_order() {
    // Slot order, not first-appearance order: value 1 fills its slot
    // before value 5 even though 5 comes first in the input.
    let pattern = [5, 1, 1];
    let hist = Histogram::from_bytes(&pattern);
    assert_eq!(hist.nonzero_counts(), vec![2, 1]);
}

#[test]
fn nonzero_counts_concrete() {
    let pattern = [0, 0, 0, 1, 1, 2, 3, 4];
    let hist = Histogram::from_bytes(&pattern);
    assert_eq!(hist.nonzero_counts(), vec![3, 2, 1, 1, 1]);
}

#[test]
fn nonzero_counts_constant_input() {
    let pattern = [9u8; 35usize];
    let hist = Histogram::from_bytes(&pattern);
    assert_eq!(hist.nonzero_counts(), vec![35]);
}

#[test]
fn nonzero_counts_empty_input() {
    let empty: [u8; 0] = [];
    let hist = Histogram::from_bytes(&empty);
    assert_eq!(hist.nonzero_counts(), Vec::<usize>::new());
    assert_eq!(hist.count(0), 0);
}

#[test]
fn nonzero_counts_full_alphabet() {
    let pattern = {
        let mut bytes = [0u8; 256usize];
        for i in 0..bytes.len() {
            bytes[i] = i as u8;
        }
        bytes
    };
    let hist = Histogram::from_bytes(&pattern);
    assert_eq!(hist.nonzero_counts(), vec![1usize; 256]);
}
