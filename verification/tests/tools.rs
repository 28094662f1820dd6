use simd::tools::unroll;

#[test]
fn unroll_visits_every_element_in_order() {
    let data: Vec<u32> = (1..=21).collect();
    for chunk in [1, 4, 8, 21, 64] {
        let mut seen = Vec::new();
        unroll(&data, chunk, |&x| seen.push(x));
        assert_eq!(seen, data);
    }
}

#[test]
fn unroll_accumulates() {
    let data = b"hello, world";
    let mut acc = 0u8;
    unroll(data, 8, |&x| acc |= x);
    assert!(acc < 0x80);
    let mut count = 0;
    unroll(&[] as &[u8], 8, |_| count += 1);
    assert_eq!(count, 0);
}
