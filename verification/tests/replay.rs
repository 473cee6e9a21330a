use hanoi::{hanno_tower, Move};

/// Three pegs with their labels; each holds its disks from the bottom up.
struct Pegs {
    labels: [char; 3],
    stacks: [Vec<i32>; 3],
}

impl Pegs {
    fn with_tower(n: i32, source: char, auxiliary: char, destination: char) -> Pegs {
        let mut tower: Vec<i32> = Vec::new();
        let mut disk: i32 = n;
        while disk >= 1 {
            tower.push(disk);
            disk -= 1;
        }
        Pegs { labels: [source, auxiliary, destination], stacks: [tower, Vec::new(), Vec::new()] }
    }

    fn index(&self, label: char) -> usize {
        let mut i: usize = 0;
        while i < 3 {
            if self.labels[i] == label {
                return i;
            }
            i += 1;
        }
        panic!("no peg {}", label);
    }

    /// Makes the move if the rule allows it, and says whether it did.
    fn make(&mut self, m: &Move) -> bool {
        let from: usize = self.index(m.from);
        let to: usize = self.index(m.to);
        if from == to || self.stacks[from].last() != Some(&m.disk) {
            return false;
        }
        if let Some(top) = self.stacks[to].last() {
            if *top < m.disk {
                return false;
            }
        }
        self.stacks[from].pop();
        self.stacks[to].push(m.disk);
        true
    }
}

#[test]
fn replaying_the_moves_solves_the_puzzle() {
    let mut n: i32 = 1;
    while n <= 12 {
        let mut pegs: Pegs = Pegs::with_tower(n, 'A', 'B', 'C');
        let expected: Vec<i32> = pegs.stacks[0].clone();
        for m in hanno_tower(n, 'A', 'B', 'C').iter() {
            assert!(pegs.make(m), "{:?} is not allowed", m);
        }
        assert!(pegs.stacks[0].is_empty());
        assert!(pegs.stacks[1].is_empty());
        assert_eq!(pegs.stacks[2], expected);
        n += 1;
    }
}

#[test]
fn replaying_three_disks_ends_with_three_two_one() {
    let mut pegs: Pegs = Pegs::with_tower(3, 'L', 'M', 'R');
    for m in hanno_tower(3, 'L', 'M', 'R').iter() {
        assert!(pegs.make(m));
    }
    assert_eq!(pegs.stacks[0], Vec::<i32>::new());
    assert_eq!(pegs.stacks[1], Vec::<i32>::new());
    assert_eq!(pegs.stacks[2], vec![3, 2, 1]);
}

#[test]
fn the_tower_is_whole_only_after_the_last_move() {
    let n: i32 = 6;
    let moves: Vec<Move> = hanno_tower(n, 'A', 'B', 'C');
    let mut pegs: Pegs = Pegs::with_tower(n, 'A', 'B', 'C');
    let mut made: usize = 0;
    for m in moves.iter() {
        assert!(pegs.stacks[2].len() < 6);
        assert!(pegs.make(m));
        made += 1;
    }
    assert_eq!(made, 63);
    assert_eq!(pegs.stacks[2].len(), 6);
}

#[test]
fn a_solution_for_other_pegs_does_not_replay() {
    let mut pegs: Pegs = Pegs::with_tower(2, 'A', 'B', 'C');
    let moves: Vec<Move> = hanno_tower(2, 'B', 'A', 'C');
    assert!(!pegs.make(&moves[0]));
}
