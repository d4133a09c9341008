use fireworks::random::{
    random_fragment_velocity, random_unit_vector, BURST_SPEED_MAX, BURST_SPEED_MIN,
    SAMPLE_ATTEMPTS,
};
use fireworks::vector::Vector;

#[test]
fn constants_of_the_burst() {
    assert_eq!(BURST_SPEED_MIN, 200_000);
    assert_eq!(BURST_SPEED_MAX, 400_000);
    assert_eq!(SAMPLE_ATTEMPTS, 4);
}

#[test]
fn random_directions_have_length_one() {
    let mut rng = rand::thread_rng();
    for _ in 0..2_000 {
        let u = random_unit_vector(&mut rng);
        let length_sq = (u.x as i128) * (u.x as i128) + (u.y as i128) * (u.y as i128);
        assert!(length_sq <= 1_000_000_000_000);
        let out_x = (u.x as i128).abs() + 1;
        let out_y = (u.y as i128).abs() + 1;
        assert!(out_x * out_x + out_y * out_y > 999_999 * 999_999);
    }
}

#[test]
fn random_directions_differ() {
    let mut rng = rand::thread_rng();
    let first = random_unit_vector(&mut rng);
    let drawn: Vec<Vector> = (0..64).map(|_| random_unit_vector(&mut rng)).collect();
    assert!(drawn.iter().any(|u| *u != first));
    assert!(drawn.iter().any(|u| u.x > 0));
    assert!(drawn.iter().any(|u| u.x < 0));
    assert!(drawn.iter().any(|u| u.y > 0));
    assert!(drawn.iter().any(|u| u.y < 0));
}

#[test]
fn random_speeds_differ_and_stay_in_range() {
    let mut rng = rand::thread_rng();
    let mut least = i128::MAX;
    let mut most = 0;
    for _ in 0..2_000 {
        let v = random_fragment_velocity(&mut rng);
        let speed_sq = (v.x as i128) * (v.x as i128) + (v.y as i128) * (v.y as i128);
        assert!(speed_sq < 400_000 * 400_000);
        assert!(speed_sq > 199_990 * 199_990);
        least = least.min(speed_sq);
        most = most.max(speed_sq);
    }
    // Speeds spread over the range instead of sitting at its lower end.
    assert!(least < 230_000 * 230_000);
    assert!(most > 370_000 * 370_000);
}
