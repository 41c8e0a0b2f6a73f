use ping_session::stats::{mean, std_deviation, Deviation, Mean};

fn quotient(m: Mean) -> f32 {
    (m.sum as f64 / m.count as f64) as f32
}

fn root(d: Deviation) -> f32 {
    ((d.radicand as f64).sqrt() / d.count as f64) as f32
}

#[test]
fn test_std_deviation() {
    let mut number_vec: Vec<i32> = vec![0, 10];
    assert_eq!(root(std_deviation(&number_vec).unwrap()), 5 as f32);

    number_vec = vec![-50, -10, -5, 0, 5, 10, 50];
    assert_eq!(root(std_deviation(&number_vec).unwrap()), 27.386127875258);

    number_vec = vec![-51437, -10, -5, 0, 5, 25633, 50];
    assert_eq!(root(std_deviation(&number_vec).unwrap()), 21407.582320671);

    number_vec = vec![0, 1, 2, 3, 4, 5, 6, 7, 8, 9, 10];
    assert_eq!(root(std_deviation(&number_vec).unwrap()), 3.1622776601684);

    number_vec = vec![0, 3, 4, 5, 6, 9];
    assert_eq!(root(std_deviation(&number_vec).unwrap()), 2.7537852736431);
}

#[test]
fn test_mean() {
    let mut number_vec: Vec<i32> = vec![0, 10];
    assert_eq!(quotient(mean(&number_vec).unwrap()), 5 as f32);

    number_vec = vec![-50, -10, -5, 0, 5, 10, 50];
    assert_eq!(quotient(mean(&number_vec).unwrap()), 0 as f32);

    number_vec = vec![-51437, -10, -5, 0, 5, 25633, 50];
    assert_eq!(quotient(mean(&number_vec).unwrap()), -3680.5714285714);

    number_vec = vec![0, 1, 2, 3, 4, 5, 6, 7, 8, 9, 10];
    assert_eq!(quotient(mean(&number_vec).unwrap()), 5 as f32);

    number_vec = vec![0, 3, 4, 5, 6, 9];
    assert_eq!(quotient(mean(&number_vec).unwrap()), 4.5 as f32);
}

#[test]
fn mean_is_the_exact_fraction() {
    assert_eq!(mean(&vec![0, 10]), Some(Mean { sum: 10, count: 2 }));
    assert_eq!(
        mean(&vec![-51437, -10, -5, 0, 5, 25633, 50]),
        Some(Mean { sum: -25764, count: 7 })
    );
    assert_eq!(mean(&vec![7]), Some(Mean { sum: 7, count: 1 }));
}

#[test]
fn deviation_is_the_exact_radicand() {
    // n * q - t * t: 2 * 100 - 10 * 10
    assert_eq!(
        std_deviation(&vec![0, 10]),
        Some(Deviation { radicand: 100, count: 2 })
    );
    // 7 * 5250 - 0
    assert_eq!(
        std_deviation(&vec![-50, -10, -5, 0, 5, 10, 50]),
        Some(Deviation { radicand: 36750, count: 7 })
    );
    assert_eq!(
        std_deviation(&vec![-51437, -10, -5, 0, 5, 25633, 50]),
        Some(Deviation { radicand: 22455944460, count: 7 })
    );
}

#[test]
fn no_samples_no_statistics() {
    let none: Vec<i32> = Vec::new();
    assert_eq!(mean(&none), None);
    assert_eq!(std_deviation(&none), None);
}

#[test]
fn equal_samples_do_not_deviate() {
    assert_eq!(
        std_deviation(&vec![250, 250, 250]),
        Some(Deviation { radicand: 0, count: 3 })
    );
    assert_eq!(
        std_deviation(&vec![-9]),
        Some(Deviation { radicand: 0, count: 1 })
    );
}

#[test]
fn extreme_samples_do_not_overflow() {
    let data: Vec<i32> = vec![i32::MIN, i32::MAX, i32::MIN, i32::MAX];
    assert_eq!(mean(&data), Some(Mean { sum: -2, count: 4 }));
    let low: i128 = i32::MIN as i128;
    let high: i128 = i32::MAX as i128;
    let squares: i128 = 2 * low * low + 2 * high * high;
    let radicand: i128 = 4 * squares - 4;
    assert_eq!(
        std_deviation(&data),
        Some(Deviation { radicand: radicand as u128, count: 4 })
    );
}

#[test]
fn statistics_do_not_depend_on_the_order() {
    let arrival: Vec<i32> = vec![900, 100, 500, 100, 300];
    let ascending: Vec<i32> = vec![100, 100, 300, 500, 900];
    assert_eq!(mean(&arrival), mean(&ascending));
    assert_eq!(std_deviation(&arrival), std_deviation(&ascending));
    assert_eq!(mean(&arrival), Some(Mean { sum: 1900, count: 5 }));
    // 5 * 1170000 - 1900 * 1900
    assert_eq!(
        std_deviation(&arrival),
        Some(Deviation { radicand: 2240000, count: 5 })
    );
}

#[test]
fn radicand_is_the_mean_squared_distance() {
    // With n samples of sum t, n times the radicand is the sum of the
    // squares of n * x - t.
    let data: Vec<i32> = vec![3, -8, 12, 40, 0, 7];
    let n: i128 = data.len() as i128;
    let t: i128 = data.iter().map(|x| *x as i128).sum();
    let squares: i128 = data.iter().map(|x| (n * *x as i128 - t) * (n * *x as i128 - t)).sum();
    let d = std_deviation(&data).unwrap();
    assert_eq!(n * d.radicand as i128, squares);
}
