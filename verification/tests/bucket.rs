use polarwarp::bucket::{bucket_order, ByteBucket};

fn classify(bytes: u64) -> (&'static str, u8) {
    let b = ByteBucket::from_bytes(bytes);
    (b.to_string(), b.to_bucket_number())
}

#[test]
fn classify_concrete_values() {
    assert_eq!(classify(0), ("zero", 0));
    assert_eq!(classify(8191), ("1B-8KiB", 1));
    assert_eq!(classify(8192), ("8KiB-64KiB", 2));
    assert_eq!(classify(67108863), ("32MiB-256MiB", 6));
    assert_eq!(classify(2147483647), ("256MiB-2GiB", 7));
    assert_eq!(classify(2147483648), (">2GiB", 8));
}

#[test]
fn classify_all_boundaries() {
    assert_eq!(classify(1).1, 1);
    assert_eq!(classify(65535).1, 2);
    assert_eq!(classify(65536).1, 3);
    assert_eq!(classify(524287).1, 3);
    assert_eq!(classify(524288).1, 4);
    assert_eq!(classify(4194303).1, 4);
    assert_eq!(classify(4194304).1, 5);
    assert_eq!(classify(33554431).1, 5);
    assert_eq!(classify(33554432).1, 6);
    assert_eq!(classify(268435455).1, 6);
    assert_eq!(classify(268435456).1, 7);
    assert_eq!(classify(u64::MAX).1, 8);
}

#[test]
fn every_byte_count_gets_exactly_one_bucket() {
    // Around every boundary, the ordinal goes up by exactly one step and
    // the label tracks the ordinal.
    let boundaries: [u64; 8] =
        [1, 8192, 65536, 524288, 4194304, 33554432, 268435456, 2147483648];
    let order = bucket_order();
    let mut prev: u8 = 0;
    for b in boundaries {
        let below = ByteBucket::from_bytes(b - 1);
        let at = ByteBucket::from_bytes(b);
        assert_eq!(below.to_bucket_number(), prev);
        assert_eq!(at.to_bucket_number(), prev + 1);
        assert_eq!(order[at.to_bucket_number() as usize], at.to_string());
        prev += 1;
    }
}

#[test]
fn label_and_ordinal_are_consistent() {
    let order = bucket_order();
    assert_eq!(order.len(), 9);
    assert_eq!(
        order,
        vec![
            "zero",
            "1B-8KiB",
            "8KiB-64KiB",
            "64KiB-512KiB",
            "512KiB-4MiB",
            "4MiB-32MiB",
            "32MiB-256MiB",
            "256MiB-2GiB",
            ">2GiB",
        ]
    );
    for probe in [0u64, 5, 10000, 100000, 1000000, 10000000, 100000000, 1500000000, 3000000000] {
        let b = ByteBucket::from_bytes(probe);
        assert_eq!(order[b.to_bucket_number() as usize], b.to_string());
    }
}
