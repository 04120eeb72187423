use chess_engine::eval::Eval;
use chess_engine::eval::Side;

#[test]
fn test_paritalord() {
    // Checkmate eval for white
    assert!(Eval::Mate(1, Side::White) > Eval::Mate(3, Side::White));
    assert!(Eval::Mate(2, Side::White) >= Eval::Mate(2, Side::White));
    assert!(Eval::Mate(1, Side::White) >= Eval::Mate(3, Side::White));

    assert!(Eval::Mate(6, Side::White) < Eval::Mate(3, Side::White));
    assert!(Eval::Mate(5, Side::White) <= Eval::Mate(5, Side::White));
    assert!(Eval::Mate(6, Side::White) <= Eval::Mate(3, Side::White));

    // Checkmate eval for black
    assert!(Eval::Mate(1, Side::Black) < Eval::Mate(3, Side::Black));
    assert!(Eval::Mate(2, Side::Black) <= Eval::Mate(2, Side::Black));
    assert!(Eval::Mate(1, Side::Black) <= Eval::Mate(3, Side::Black));

    assert!(Eval::Mate(6, Side::Black) > Eval::Mate(3, Side::Black));
    assert!(Eval::Mate(5, Side::Black) >= Eval::Mate(5, Side::Black));
    assert!(Eval::Mate(6, Side::Black) >= Eval::Mate(3, Side::Black));

    // Checkmate white vs black
    assert!(Eval::Mate(5, Side::White) > Eval::Mate(2, Side::Black));

    // Numerics
    assert!(Eval::Numeric(7) > Eval::Numeric(4));
    assert!(Eval::Numeric(4) >= Eval::Numeric(4));
    assert!(Eval::Numeric(7) >= Eval::Numeric(4));

    assert!(Eval::Numeric(4) < Eval::Numeric(7));
    assert!(Eval::Numeric(4) <= Eval::Numeric(4));
    assert!(Eval::Numeric(4) <= Eval::Numeric(7));

    // Numerics vs checkmate
    assert!(Eval::Mate(9, Side::White) > Eval::Numeric(100));
    assert!(Eval::Numeric(100) < Eval::Mate(9, Side::White));
    assert!(Eval::Mate(1, Side::Black) < Eval::Numeric(-100));
    assert!(Eval::Numeric(-100) > Eval::Mate(1, Side::Black));

    // Numerics vs infinity
    assert!(Eval::Numeric(0) < Eval::Infinity);
    assert!(Eval::Infinity > Eval::Numeric(0));
    assert!(Eval::Numeric(-1) > Eval::NegInfinity);
    assert!(Eval::NegInfinity < Eval::Numeric(-1));

    // checkmate vs infinity
    assert!(Eval::Mate(1, Side::White) < Eval::Infinity);
    assert!(Eval::Infinity > Eval::Mate(1, Side::White));
    assert!(Eval::Mate(1, Side::Black) > Eval::NegInfinity);
    assert!(Eval::NegInfinity < Eval::Mate(1, Side::Black));

    // maximizing
    assert_eq!(Eval::Mate(1, Side::White).max(Eval::Infinity), Eval::Infinity);
}

#[test]
fn order_is_total_on_samples() {
    let values = [
        Eval::NegInfinity,
        Eval::Mate(1, Side::Black),
        Eval::Mate(4, Side::Black),
        Eval::Numeric(-3),
        Eval::Numeric(0),
        Eval::Numeric(5),
        Eval::Mate(4, Side::White),
        Eval::Mate(1, Side::White),
        Eval::Infinity,
    ];
    // The list above is strictly ascending; check every pair both ways.
    for i in 0..values.len() {
        for j in 0..values.len() {
            if i < j {
                assert!(values[i] < values[j]);
                assert!(values[j] > values[i]);
            } else if i == j {
                assert!(values[i] <= values[j]);
                assert!(values[i] >= values[j]);
                assert_eq!(values[i], values[j]);
            }
        }
    }
}

#[test]
fn mate_distance_ordering() {
    // A mate in fewer plies is more decisive for the side delivering it.
    assert!(Eval::Mate(2, Side::White) > Eval::Mate(7, Side::White));
    assert!(Eval::Mate(2, Side::Black) < Eval::Mate(7, Side::Black));
    // Equal distances compare equal only for the same side.
    assert_eq!(Eval::Mate(3, Side::White), Eval::Mate(3, Side::White));
    assert!(Eval::Mate(3, Side::White) != Eval::Mate(3, Side::Black));
}

#[test]
fn mate_dominates_every_numeric() {
    for x in [-1_000_000_i64, -9, 0, 9, 1_000_000] {
        assert!(Eval::Mate(30, Side::White) > Eval::Numeric(x));
        assert!(Eval::Mate(30, Side::Black) < Eval::Numeric(x));
    }
}

#[test]
fn max_and_min_follow_the_order() {
    let a = Eval::Numeric(3);
    let b = Eval::Mate(2, Side::Black);
    assert_eq!(a.max(b), a);
    assert_eq!(a.min(b), b);
    assert_eq!(Eval::NegInfinity.max(Eval::Numeric(-50)), Eval::Numeric(-50));
    assert_eq!(Eval::Infinity.min(Eval::Mate(1, Side::White)), Eval::Mate(1, Side::White));
    // Ties keep the left value.
    assert_eq!(Eval::Numeric(4).max(Eval::Numeric(4)), Eval::Numeric(4));
}
