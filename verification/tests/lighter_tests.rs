use forestfire::lighter::{burn_out, spark, spark_with_draw, PROB_SCALE};

#[test]
fn always() {
    assert!(spark(1, PROB_SCALE));
}

#[test]
fn never() {
    assert!(false == spark(1, 0));
}

#[test]
fn occasionally() {
    let times = 100; // I dare you to be this unlucky.
    let mut had_true = false;
    let mut had_false = false;

    for _ in 0..times {
        if spark(1, PROB_SCALE / 2) {
            had_true = true;
        } else {
            had_false = true;
        }

        if had_true && had_false {
            break;
        }
    }

    assert!(had_true);
    assert!(had_false);
}

#[test]
fn no_neighbors_never_ignites() {
    for p in [0, 1, PROB_SCALE / 2, PROB_SCALE - 1, PROB_SCALE] {
        assert!(!spark(0, p));
    }
}

#[test]
fn certain_spread_always_ignites() {
    for n in [1, 2, 3, 8] {
        assert!(spark(n, PROB_SCALE));
    }
}

#[test]
fn burn_out_extremes() {
    for _ in 0..100 {
        assert!(!burn_out(0));
        assert!(burn_out(PROB_SCALE));
    }
}

#[test]
fn spark_with_draw_is_deterministic() {
    // One burning neighbor at spread probability 1/2: the stay-alive chance
    // is exactly half the scale, so low draws stay alive and high draws burn.
    assert!(!spark_with_draw(1, PROB_SCALE / 2, 0));
    assert!(!spark_with_draw(1, PROB_SCALE / 2, PROB_SCALE / 2 - 1));
    assert!(spark_with_draw(1, PROB_SCALE / 2, PROB_SCALE / 2));
    assert!(spark_with_draw(1, PROB_SCALE / 2, PROB_SCALE - 1));
    // Two neighbors at 1/2: the stay-alive chance is a quarter of the scale.
    assert!(!spark_with_draw(2, PROB_SCALE / 2, PROB_SCALE / 4 - 1));
    assert!(spark_with_draw(2, PROB_SCALE / 2, PROB_SCALE / 4));
}
