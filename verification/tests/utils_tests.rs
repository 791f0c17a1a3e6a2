use aae::utils::{factorial, generate_random_id, percentage, pick, random, roll_hits};

#[test]
fn random_stays_in_range() {
    for _ in 0..100 {
        let r = random(-1, 1);
        assert!((-1..=1).contains(&r));
    }
    assert_eq!(random(5, 5), 5);
}

#[test]
fn percentage_edges() {
    for _ in 0..100 {
        assert!(!percentage(0, 100));
        assert!(percentage(100, 100));
        assert!(!percentage(-3, 2));
    }
}

#[test]
fn pick_from_items() {
    assert_eq!(pick::<i32>(vec![]), None);
    assert_eq!(pick(vec![7]), Some(7));
    let r = pick(vec![1, 2, 3]).unwrap();
    assert!((1..=3).contains(&r));
}

#[test]
fn random_ids() {
    let id = generate_random_id(30);
    assert_eq!(id.chars().count(), 30);
    assert!(id.chars().all(|c| c.is_ascii_alphanumeric()));
    assert_eq!(generate_random_id(0), "");
}

#[test]
fn factorials() {
    assert_eq!(factorial(0), 1);
    assert_eq!(factorial(1), 1);
    assert_eq!(factorial(5), 120);
    assert_eq!(factorial(20), 2432902008176640000);
}

#[test]
fn test_percentage_function() {
    let molecule = 10;
    let denominator = 100;
    let mut count = 0;
    let n = 10000000;
    for _ in 0..n {
        if percentage(molecule, denominator) {
            count += 1;
        }
    }
    let avg: f32 = (count as f32 / n as f32) * 100.0;
    println!("\navg:{}\ncount:{}\nn{}\n", avg, count, n);
    assert!(avg >= 9.0 && avg <= 11.0);
}

#[test]
fn test_generate_random_id() {
    for _ in 0..10 {
        let id = generate_random_id(30);
        println!("id:{}", id);
        assert_eq!(id.chars().count(), 30);
    }
}

#[test]
fn rolls_below_the_molecule_hit() {
    assert!(roll_hits(0, 10));
    assert!(roll_hits(9, 10));
    assert!(!roll_hits(10, 10));
    assert!(!roll_hits(99, 10));
    assert!(!roll_hits(0, 0));
    assert!(roll_hits(-5, -4));
}
