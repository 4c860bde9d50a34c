use bucketing::{Bucketing, Functional};

/// A strategy that keeps its boundaries in a table.
struct Table {
    boundaries: Vec<u64>,
}

impl Bucketing for Table {
    fn sample_to_bucket_minimum(&self, sample: u64) -> u64 {
        let mut minimum = 0;
        for boundary in &self.boundaries {
            if *boundary <= sample {
                minimum = *boundary;
            }
        }
        minimum
    }

    fn ranges(&self) -> &[u64] {
        &self.boundaries
    }
}

/// The minimums that a strategy gives to a run of samples.
fn minimums(strategy: &impl Bucketing, samples: std::ops::Range<u64>) -> Vec<u64> {
    samples.map(|sample| strategy.sample_to_bucket_minimum(sample)).collect()
}

#[test]
fn a_table_strategy_fits_the_capability() {
    let table = Table { boundaries: vec![0, 1, 2, 4, 8] };
    assert_eq!(table.sample_to_bucket_minimum(0), 0);
    assert_eq!(table.sample_to_bucket_minimum(3), 2);
    assert_eq!(table.sample_to_bucket_minimum(100), 8);
    assert_eq!(table.ranges(), &[0, 1, 2, 4, 8]);
    assert_eq!(minimums(&table, 0..10), vec![0, 1, 2, 2, 4, 4, 4, 4, 8, 8]);
}

#[test]
fn the_functional_strategy_fits_the_capability() {
    // One bucket for each power of two, with arithmetic on integers.
    let functional = Functional::with_arithmetic(
        2.0f64.to_bits(),
        |_, argument| (argument.ilog2() as f64).to_bits(),
        |_, index| ((1u128 << index) as f64).to_bits(),
    );
    assert_eq!(minimums(&functional, 0..10), vec![0, 2, 2, 4, 4, 4, 4, 8, 8, 8]);
}

#[test]
fn every_strategy_maps_zero_to_zero() {
    let table = Table { boundaries: vec![0, 10, 100] };
    let functional = Functional::with_arithmetic(
        10.0f64.to_bits(),
        |base, argument| (argument as f64).log(f64::from_bits(base)).to_bits(),
        |base, index| f64::from_bits(base).powf(index as f64).to_bits(),
    );
    assert_eq!(minimums(&table, 0..1), vec![0]);
    assert_eq!(minimums(&functional, 0..1), vec![0]);
}
