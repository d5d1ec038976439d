use relon_ir::float_bits::int_to_double_bits;

#[test]
fn integers_convert_as_the_machine_converts_them() {
    let samples: [i64; 22] = [
        0,
        1,
        -1,
        2,
        3,
        10,
        -10,
        1023,
        1024,
        (1 << 52) - 1,
        1 << 52,
        (1 << 53) - 1,
        1 << 53,
        (1 << 53) + 1,
        (1 << 53) + 2,
        (1 << 53) + 3,
        -((1 << 53) + 1),
        (1 << 54) + 2,
        (1 << 54) + 6,
        i64::MAX - 1,
        i64::MAX,
        i64::MIN,
    ];
    for v in samples {
        assert_eq!(int_to_double_bits(v), (v as f64).to_bits(), "{}", v);
    }
}

#[test]
fn halves_round_to_the_even_neighbour() {
    let step = 1i64 << 53;
    assert_eq!(int_to_double_bits(step + 1), (step as f64).to_bits());
    assert_eq!(int_to_double_bits(step + 3), ((step + 4) as f64).to_bits());
}

#[test]
fn small_integers_convert_exactly() {
    for v in -300i64..300 {
        assert_eq!(f64::from_bits(int_to_double_bits(v)) as i64, v);
    }
}

#[test]
fn larger_integers_never_convert_to_less() {
    let around = [1i64 << 53, 1 << 60, i64::MAX - 3000];
    for base in around {
        let mut last = f64::from_bits(int_to_double_bits(base - 1));
        for v in base..base + 2000 {
            let next = f64::from_bits(int_to_double_bits(v));
            assert!(last <= next);
            last = next;
        }
    }
}
