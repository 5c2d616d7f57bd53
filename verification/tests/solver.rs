use chat_core::solver::Combinatorial;

fn all_solutions(size: usize, total: u32) -> Vec<Vec<u32>> {
    let mut combo = Combinatorial::new(size, total);
    let mut out = Vec::new();
    while let Some(v) = combo.next() {
        out.push(v);
    }
    out
}

#[test]
fn enumerates_every_split_in_counter_order() {
    // all ways to split 3 sold items over 3 entries
    let solutions = all_solutions(3, 3);
    assert_eq!(
        solutions,
        vec![
            vec![0, 0, 3],
            vec![0, 1, 2],
            vec![0, 2, 1],
            vec![0, 3, 0],
            vec![1, 0, 2],
            vec![1, 1, 1],
            vec![1, 2, 0],
            vec![2, 0, 1],
            vec![2, 1, 0],
            vec![3, 0, 0],
        ]
    );
}

#[test]
fn single_entry_has_a_single_split() {
    assert_eq!(all_solutions(1, 1), vec![vec![1]]);
    assert_eq!(all_solutions(1, 0), vec![vec![0u32; 1]]);
}

#[test]
fn zero_total_gives_the_zero_vector() {
    assert_eq!(all_solutions(2, 0), vec![vec![0, 0]]);
}

#[test]
fn exhausted_enumerator_stays_exhausted() {
    let mut combo = Combinatorial::new(1, 1);
    assert_eq!(combo.next(), Some(vec![1]));
    assert_eq!(combo.next(), None);
    assert_eq!(combo.next(), None);
}

// The price filter the inventory endpoint applies on top of the
// enumeration: of all splits of 22 items over two soy-sauce entries,
// only one matches the recorded sales figure.
#[test]
fn price_filter_on_top_of_the_enumeration() {
    let prices = [905.0_f64, 540.0_f64];
    let total_sale = 14070.0_f64;
    let tolerance = 0.00000000001_f64;
    let matching: Vec<Vec<u32>> = all_solutions(2, 22)
        .into_iter()
        .filter(|soln| {
            let value: f64 = soln
                .iter()
                .zip(prices.iter())
                .map(|(count, price)| *count as f64 * price)
                .sum();
            (value - total_sale).abs() <= tolerance
        })
        .collect();
    assert_eq!(matching, vec![vec![6, 16]]);
}
