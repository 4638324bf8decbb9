use cuda_rs::align::align_up;

#[test]
fn align_up_rounds_to_the_next_multiple() {
    assert_eq!(align_up(0, 512), 0);
    assert_eq!(align_up(1, 512), 512);
    assert_eq!(align_up(511, 512), 512);
    assert_eq!(align_up(512, 512), 512);
    assert_eq!(align_up(513, 512), 1024);
    assert_eq!(align_up(1024, 512), 1024);
    assert_eq!(align_up(5, 8), 8);
    assert_eq!(align_up(16, 8), 16);
}

#[test]
fn align_up_is_never_below_and_lands_on_multiples() {
    for w in 1..2000usize {
        let r = align_up(w, 512);
        assert!(r >= w);
        assert_eq!(r % 512, 0);
        // idempotent: rounding an aligned value changes nothing
        assert_eq!(align_up(r, 512), r);
    }
}
