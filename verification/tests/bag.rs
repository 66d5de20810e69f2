use cgc_core::tetris::bag::{PieceOrder, TetroBag, REFILL_THRESHOLD};
use cgc_core::tetris::components::FigureType;

fn count(pieces: &[FigureType], kind: FigureType) -> usize {
    pieces.iter().filter(|p| **p == kind).count()
}

fn reversed() -> PieceOrder {
    PieceOrder::new([
        FigureType::T,
        FigureType::J,
        FigureType::L,
        FigureType::Z,
        FigureType::S,
        FigureType::I,
        FigureType::O,
    ])
    .unwrap()
}

#[test]
fn piece_order_accepts_permutations_only() {
    assert!(PieceOrder::new(FigureType::all()).is_some());
    assert!(reversed().pieces()[0] == FigureType::T);
    assert!(PieceOrder::new([FigureType::O; 7]).is_none());
    assert!(PieceOrder::new([
        FigureType::O,
        FigureType::I,
        FigureType::S,
        FigureType::Z,
        FigureType::L,
        FigureType::J,
        FigureType::J,
    ])
    .is_none());
}

#[test]
fn catalog_order_is_the_catalog() {
    assert_eq!(PieceOrder::catalog().pieces(), FigureType::all());
}

#[test]
fn shuffled_order_is_a_permutation() {
    for _ in 0..200 {
        let order = PieceOrder::shuffled().pieces();
        for kind in FigureType::all() {
            assert_eq!(count(&order, kind), 1);
        }
        assert!(PieceOrder::new(order).is_some());
    }
}

#[test]
fn shuffled_order_is_not_always_the_catalog() {
    let mut differs = false;
    for _ in 0..200 {
        if PieceOrder::shuffled().pieces() != FigureType::all() {
            differs = true;
        }
    }
    assert!(differs);
}

#[test]
fn shuffle_reaches_every_first_piece() {
    let mut seen = Vec::new();
    for _ in 0..2000 {
        let first = PieceOrder::shuffled().pieces()[0];
        if !seen.contains(&first) {
            seen.push(first);
        }
    }
    assert_eq!(seen.len(), 7);
}

#[test]
fn new_bag_is_empty_and_needs_refill() {
    let bag = TetroBag::new();
    assert_eq!(bag.len(), 0);
    assert!(bag.needs_refill());
    assert_eq!(REFILL_THRESHOLD, 3);
}

#[test]
fn first_draw_refills_and_pops_the_front() {
    let mut bag = TetroBag::new();
    let piece = bag.draw_with(&reversed());
    assert_eq!(piece, FigureType::T);
    assert_eq!(bag.len(), 6);
    assert!(!bag.needs_refill());
}

#[test]
fn bag_refills_at_three_or_fewer() {
    let mut bag = TetroBag::new();
    let first = reversed();
    let second = PieceOrder::catalog();
    let mut lens = Vec::new();
    let mut drawn = Vec::new();
    for _ in 0..4 {
        drawn.push(bag.draw_with(&first));
        lens.push(bag.len());
    }
    assert_eq!(lens, vec![6, 5, 4, 3]);
    assert!(bag.needs_refill());
    for _ in 0..3 {
        drawn.push(bag.draw_with(&second));
        lens.push(bag.len());
    }
    assert_eq!(lens, vec![6, 5, 4, 3, 9, 8, 7]);
    assert_eq!(drawn, reversed().pieces().to_vec());
    for _ in 0..7 {
        drawn.push(bag.draw_with(&first));
    }
    assert_eq!(drawn[7..].to_vec(), FigureType::all().to_vec());
}

#[test]
fn order_on_offer_is_unused_without_refill() {
    let mut bag = TetroBag::new();
    bag.draw_with(&PieceOrder::catalog());
    assert_eq!(bag.draw_with(&reversed()), FigureType::I);
    assert_eq!(bag.draw_with(&reversed()), FigureType::S);
    assert_eq!(bag.len(), 4);
}

#[test]
fn reset_empties_the_bag() {
    let mut bag = TetroBag::new();
    bag.draw_with(&PieceOrder::catalog());
    bag.reset();
    assert_eq!(bag.len(), 0);
    assert_eq!(bag.draw_with(&reversed()), FigureType::T);
    assert_eq!(bag.len(), 6);
}

#[test]
fn seven_k_draws_hold_each_type_k_times() {
    for k in 1..6 {
        let mut bag = TetroBag::new();
        let mut drawn = Vec::new();
        for _ in 0..7 * k {
            drawn.push(bag.draw_next());
        }
        for kind in FigureType::all() {
            assert_eq!(count(&drawn, kind), k);
        }
        for bag_no in 0..k {
            for kind in FigureType::all() {
                assert_eq!(count(&drawn[7 * bag_no..7 * bag_no + 7], kind), 1);
            }
        }
        assert_eq!(bag.len(), 7);
    }
}

#[test]
fn fairness_holds_again_after_a_reset() {
    let mut bag = TetroBag::new();
    for _ in 0..5 {
        bag.draw_next();
    }
    bag.reset();
    let mut drawn = Vec::new();
    for _ in 0..14 {
        drawn.push(bag.draw_next());
    }
    for kind in FigureType::all() {
        assert_eq!(count(&drawn, kind), 2);
    }
}
