use molaxis::img_integrate::{pair_candidates, PairCandidate};
use molaxis::point_pair::Point;

#[test]
fn charges_of_disc_centres() {
    assert_eq!(Point::new(180, 833).charge(), 1);
    assert_eq!(Point::new(180, 623).charge(), 2);
    assert_eq!(Point::new(180, 414).charge(), 3);
    assert_eq!(Point::new(180, 204).charge(), 4);
    assert_eq!(Point::new(180, 0).charge(), 5);
}

#[test]
fn disc_borders_are_inside() {
    assert_eq!(Point::new(180, 913).charge(), 1);
    assert_eq!(Point::new(260, 833).charge(), 1);
    assert_eq!(Point::new(180, 74).charge(), 5);
    assert_eq!(Point::new(180, 124).charge(), 4);
    assert_eq!(Point::new(228, 897).charge(), 1);
}

#[test]
fn outside_every_disc_is_invalid() {
    let p = Point::new(180, 914);
    assert_eq!(p.charge(), 0);
    assert!(!p.valid());
    assert!(!Point::new(0, 0).valid());
    assert!(!Point::new(180, 518).valid());
    assert!(!Point::new(399, 1023).valid());
    assert!(Point::new(181, 833).valid());
}

#[test]
fn point_keeps_its_coordinates() {
    let p = Point::new(12, 345);
    assert_eq!(p.x(), 12);
    assert_eq!(p.y(), 345);
}

#[test]
fn shifted_rows_and_separation() {
    let a = Point::new(180, 623);
    let b = Point::new(190, 414);
    assert_eq!(a.shifted_y(), 623 + 2 * 210);
    assert_eq!(b.shifted_y(), 414 + 3 * 210);
    assert_eq!(a.separation_sq(&b), 10 * 10 + 1 * 1);
    let c = Point::new(0, 0);
    assert_eq!(c.shifted_y(), 0);
    assert_eq!(a.separation_sq(&c), 180 * 180 + 1043 * 1043);
}

#[test]
fn pairs_are_complete_groups_of_two() {
    let records = vec![
        (1, 10, 20, 5),
        (1, 11, 21, 5),
        (2, 12, 22, 5),
        (3, 13, 23, 5),
        (3, 14, 24, 5),
        (3, 15, 25, 5),
        (4, 16, 26, 5),
        (4, 17, 27, 5),
        (5, 18, 28, 5),
        (5, 19, 29, 5),
    ];
    let pairs = pair_candidates(&records);
    assert_eq!(
        pairs,
        vec![
            PairCandidate { id: 1, first: (10, 20), second: (11, 21) },
            PairCandidate { id: 4, first: (16, 26), second: (17, 27) },
        ]
    );
}

#[test]
fn last_group_is_never_taken() {
    assert!(pair_candidates(&vec![(7, 1, 1, 0), (7, 2, 2, 0)]).is_empty());
    assert!(pair_candidates(&vec![]).is_empty());
}

#[test]
fn point_text_aligns_coordinates() {
    assert_eq!(Point::new(180, 833).to_text(), "(180,  833) q=1");
    assert_eq!(Point::new(5, 12).to_text(), "(  5,   12) q=0");
    assert_eq!(Point::new(180, 1).to_text(), format!("({: >3}, {: >4}) q={}", 180, 1, 5));
}
