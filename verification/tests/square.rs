use four_numbers::{Square, UNRESOLVED};

fn rotations(c: [i64; 4]) -> [[i64; 4]; 4] {
    [
        c,
        [c[1], c[2], c[3], c[0]],
        [c[2], c[3], c[0], c[1]],
        [c[3], c[0], c[1], c[2]],
    ]
}

#[test]
fn new_keeps_the_corners_and_has_no_distance() {
    let square = Square::new([1, 3, 4, 2]);
    assert_eq!(square.corners, [1, 3, 4, 2]);
    assert_eq!(square.distance, UNRESOLVED);
    assert_eq!(UNRESOLVED, -1);
}

#[test]
fn a_square_equals_itself() {
    for corners in [[0, 0, 0, 0], [1, 3, 4, 2], [7, 7, 7, 7], [i64::MAX, 0, 5, 0]] {
        let square = Square::new(corners);
        assert!(square.equals(&square));
        assert!(square == square);
    }
}

#[test]
fn the_four_rotations_are_equal_to_one_another() {
    for corners in [[1, 3, 4, 2], [0, 0, 0, 9], [5, 5, 6, 6], [1, 2, 3, 4]] {
        for left in rotations(corners) {
            for right in rotations(corners) {
                assert!(Square::new(left).equals(&Square::new(right)));
                assert!(Square::new(left) == Square::new(right));
            }
        }
    }
}

#[test]
fn equality_is_symmetric_and_transitive() {
    let pool = [
        [1, 2, 3, 4],
        [2, 3, 4, 1],
        [3, 4, 1, 2],
        [4, 3, 2, 1],
        [1, 4, 3, 2],
        [1, 3, 2, 4],
        [1, 2, 1, 2],
        [2, 1, 2, 1],
        [0, 0, 0, 0],
    ];
    for a in pool {
        for b in pool {
            let ab = Square::new(a).equals(&Square::new(b));
            assert_eq!(ab, Square::new(b).equals(&Square::new(a)));
            for c in pool {
                let bc = Square::new(b).equals(&Square::new(c));
                if ab && bc {
                    assert!(Square::new(a).equals(&Square::new(c)));
                }
            }
        }
    }
}

#[test]
fn a_reflection_is_another_square() {
    let square = Square::new([1, 2, 3, 4]);
    let mirrored = Square::new([4, 3, 2, 1]);
    assert!(!square.equals(&mirrored));
    assert!(square != mirrored);
    assert!(!Square::new([1, 3, 4, 2]).equals(&Square::new([2, 4, 3, 1])));
}

#[test]
fn a_reflection_that_is_a_rotation_is_the_same_square() {
    assert!(Square::new([1, 2, 1, 2]).equals(&Square::new([2, 1, 2, 1])));
    assert!(Square::new([5, 5, 8, 8]).equals(&Square::new([8, 8, 5, 5])));
    assert!(Square::new([3, 9, 4, 9]).equals(&Square::new([9, 4, 9, 3])));
}

#[test]
fn squares_with_other_corners_differ() {
    assert!(!Square::new([1, 2, 3, 4]).equals(&Square::new([1, 2, 3, 5])));
    assert!(!Square::new([1, 2, 3, 4]).equals(&Square::new([1, 3, 2, 4])));
    assert!(!Square::new([0, 0, 0, 0]).equals(&Square::new([0, 0, 0, 1])));
}

#[test]
fn the_distance_plays_no_part_in_equality() {
    let mut solved = Square::new([1, 3, 4, 2]);
    solved.distance = 4;
    assert!(solved.equals(&Square::new([3, 4, 2, 1])));
    assert!(solved == Square::new([1, 3, 4, 2]));
}

#[test]
fn the_hash_key_is_the_sum_of_the_corners() {
    assert_eq!(Square::new([1, 3, 4, 2]).hash_key(), 10);
    assert_eq!(Square::new([0, 0, 0, 0]).hash_key(), 0);
    assert_eq!(Square::new([-5, 2, 0, 1]).hash_key(), -2);
}

#[test]
fn the_hash_key_does_not_wrap() {
    let top = i64::MAX as i128;
    assert_eq!(Square::new([i64::MAX; 4]).hash_key(), 4 * top);
    assert_eq!(Square::new([i64::MIN; 4]).hash_key(), 4 * (i64::MIN as i128));
}

#[test]
fn equal_squares_have_equal_hash_keys() {
    for corners in [[1, 3, 4, 2], [9, 0, 0, 2], [i64::MAX, 1, i64::MAX, 3]] {
        let key = Square::new(corners).hash_key();
        for turned in rotations(corners) {
            assert_eq!(Square::new(turned).hash_key(), key);
        }
    }
}

#[test]
fn equal_hash_keys_do_not_make_squares_equal() {
    let one = Square::new([1, 2, 3, 4]);
    let other = Square::new([1, 3, 2, 4]);
    assert_eq!(one.hash_key(), other.hash_key());
    assert!(!one.equals(&other));
}

#[test]
fn iterate_square_takes_the_differences_of_neighbours() {
    assert_eq!(Square::new([1, 3, 4, 2]).iterate_square().corners, [2, 1, 2, 1]);
    assert_eq!(Square::new([2, 1, 2, 1]).iterate_square().corners, [1, 1, 1, 1]);
    assert_eq!(Square::new([1, 1, 1, 1]).iterate_square().corners, [0, 0, 0, 0]);
    assert_eq!(Square::new([0, 0, 0, 0]).iterate_square().corners, [0, 0, 0, 0]);
    assert_eq!(Square::new([5, 9, 2, 7]).iterate_square().corners, [4, 7, 5, 2]);
    assert_eq!(Square::new([10, 6, 3, 1]).iterate_square().corners, [4, 3, 2, 9]);
}

#[test]
fn iterate_square_gives_a_square_without_distance() {
    let mut solved = Square::new([1, 3, 4, 2]);
    solved.distance = 4;
    assert_eq!(solved.iterate_square().distance, UNRESOLVED);
}

#[test]
fn iterate_square_works_up_to_the_largest_corner() {
    let next = Square::new([i64::MAX, 0, i64::MAX, 0]).iterate_square();
    assert_eq!(next.corners, [i64::MAX; 4]);
    let next = Square::new([i64::MAX, 0, 0, 1]).iterate_square();
    assert_eq!(next.corners, [i64::MAX, 0, 1, i64::MAX - 1]);
}

#[test]
fn iterate_square_works_where_the_differences_fit() {
    let next = Square::new([-3, 4, -1, 0]).iterate_square();
    assert_eq!(next.corners, [7, 5, 1, 3]);
}

#[test]
fn iterate_square_is_a_function_of_the_square() {
    let square = Square::new([10, 6, 3, 1]);
    assert_eq!(square.iterate_square().corners, square.iterate_square().corners);
    for corners in [[10, 6, 3, 1], [0, 1, 4, 11], [7, 7, 0, 2]] {
        let next = Square::new(corners).iterate_square();
        for turned in rotations(corners) {
            assert!(Square::new(turned).iterate_square().equals(&next));
        }
    }
}

#[test]
fn render_lists_the_corners_in_order() {
    assert_eq!(Square::new([1, 3, 4, 2]).render(), "1, 3, 4, 2");
    assert_eq!(Square::new([0, 0, 0, 0]).render(), "0, 0, 0, 0");
    assert_eq!(Square::new([10, 205, 0, 99]).render(), "10, 205, 0, 99");
}

#[test]
fn render_writes_every_corner_in_full() {
    assert_eq!(
        Square::new([i64::MAX, i64::MIN, -1, 1000000]).render(),
        "9223372036854775807, -9223372036854775808, -1, 1000000"
    );
}

#[test]
fn render_does_not_show_the_distance() {
    let mut solved = Square::new([2, 1, 2, 1]);
    solved.distance = 3;
    assert_eq!(solved.render(), "2, 1, 2, 1");
}
