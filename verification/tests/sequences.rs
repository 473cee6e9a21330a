use hanoi::{hanno_tower, Move};

fn step(disk: i32, from: char, to: char) -> Move {
    Move { disk, from, to }
}

#[test]
fn test_hanno_tower() {
    let moves: Vec<Move> = hanno_tower(3, 'A', 'B', 'C');
    assert_eq!(moves.len(), 7);
    assert_eq!(moves[0], step(1, 'A', 'C'));
    assert_eq!(moves[3], step(3, 'A', 'C'));
    assert_eq!(moves[6], step(1, 'A', 'C'));
}

#[test]
fn one_disk_goes_straight_across() {
    assert_eq!(hanno_tower(1, 'A', 'B', 'C'), vec![step(1, 'A', 'C')]);
}

#[test]
fn two_disks_take_three_moves() {
    assert_eq!(
        hanno_tower(2, 'A', 'B', 'C'),
        vec![step(1, 'A', 'B'), step(2, 'A', 'C'), step(1, 'B', 'C')]
    );
}

#[test]
fn three_disks_take_seven_moves() {
    assert_eq!(
        hanno_tower(3, 'A', 'B', 'C'),
        vec![
            step(1, 'A', 'C'),
            step(2, 'A', 'B'),
            step(1, 'C', 'B'),
            step(3, 'A', 'C'),
            step(1, 'B', 'A'),
            step(2, 'B', 'C'),
            step(1, 'A', 'C'),
        ]
    );
}

#[test]
fn four_disks_take_fifteen_moves() {
    assert_eq!(
        hanno_tower(4, 'A', 'B', 'C'),
        vec![
            step(1, 'A', 'B'),
            step(2, 'A', 'C'),
            step(1, 'B', 'C'),
            step(3, 'A', 'B'),
            step(1, 'C', 'A'),
            step(2, 'C', 'B'),
            step(1, 'A', 'B'),
            step(4, 'A', 'C'),
            step(1, 'B', 'C'),
            step(2, 'B', 'A'),
            step(1, 'C', 'A'),
            step(3, 'B', 'C'),
            step(1, 'A', 'B'),
            step(2, 'A', 'C'),
            step(1, 'B', 'C'),
        ]
    );
}

#[test]
fn the_labels_are_the_callers() {
    assert_eq!(
        hanno_tower(2, 'x', 'y', 'z'),
        vec![step(1, 'x', 'y'), step(2, 'x', 'z'), step(1, 'y', 'z')]
    );
    assert_eq!(
        hanno_tower(2, 'C', 'A', 'B'),
        vec![step(1, 'C', 'A'), step(2, 'C', 'B'), step(1, 'A', 'B')]
    );
}

#[test]
fn the_number_of_moves_is_a_power_of_two_less_one() {
    let mut n: i32 = 1;
    let mut expected: usize = 1;
    while n <= 16 {
        assert_eq!(hanno_tower(n, 'A', 'B', 'C').len(), expected);
        expected = 2 * expected + 1;
        n += 1;
    }
    assert_eq!(hanno_tower(10, 'A', 'B', 'C').len(), 1023);
    assert_eq!(hanno_tower(16, 'A', 'B', 'C').len(), 65535);
}

#[test]
fn the_solution_is_two_smaller_solutions_around_the_largest_disk() {
    let mut n: i32 = 2;
    while n <= 10 {
        let mut expected: Vec<Move> = hanno_tower(n - 1, 'A', 'C', 'B');
        expected.push(step(n, 'A', 'C'));
        expected.extend(hanno_tower(n - 1, 'B', 'A', 'C'));
        assert_eq!(hanno_tower(n, 'A', 'B', 'C'), expected);
        n += 1;
    }
}

#[test]
fn disk_k_moves_two_to_the_n_minus_k_times() {
    let n: i32 = 8;
    let moves: Vec<Move> = hanno_tower(n, 'A', 'B', 'C');
    let mut k: i32 = 1;
    while k <= n {
        let mut count: usize = 0;
        for m in moves.iter() {
            if m.disk == k {
                count += 1;
            }
        }
        assert_eq!(count, 1usize << (n - k));
        k += 1;
    }
}
