use raid_rs::bits::Bits;
use raid_rs::raid3::RAID3;
use raid_rs::stripe::Stripe;

#[derive(Default)]
struct DummyStripe<const N: usize>;

impl<const N: usize> Stripe<N> for DummyStripe<N> {
    fn data_slots(&self) -> usize {
        0
    }

    fn write(&mut self, _data: &[Bits<N>]) {}

    fn read(&self, _out: &mut [Bits<N>]) {}
}

#[test]
fn default_as_restore_is_none_for_concrete_type() {
    let s = DummyStripe::<4>::default();
    assert!(s.as_restore().is_none());
}

#[test]
fn raid3_stripe_data_const_matches_d_minus_one() {
    let r = RAID3::<4, 4>::zero();
    let data: usize = r.data_slots();
    assert_eq!(data, 3);
}

#[test]
fn raid3_stripe_write_sets_data_and_parity_then_read_returns_same() {
    let d0 = Bits::<4>([1, 2, 3, 4]);
    let d1 = Bits::<4>([5, 6, 7, 8]);
    let d2 = Bits::<4>([9, 10, 11, 12]);

    let mut r = RAID3::<4, 4>([Bits::zero(); 4]);

    r.write(&[d0, d1, d2]);

    assert_eq!(r.0[0], d0);
    assert_eq!(r.0[1], d1);
    assert_eq!(r.0[2], d2);

    let mut expected_p = Bits::<4>::zero();
    expected_p.xor_in_place(&d0);
    expected_p.xor_in_place(&d1);
    expected_p.xor_in_place(&d2);
    assert_eq!(r.0[3], expected_p);

    let mut out = [Bits::<4>::zero(); 3];
    r.read(&mut out);
    assert_eq!(out, [d0, d1, d2]);
}

#[test]
fn raid3_stripe_as_restore_returns_some() {
    let r = RAID3::<3, 4>([Bits::zero(); 3]);
    assert!(r.as_restore().is_some());
}

#[test]
fn stripe_trait_tests_stripe_data_const_matches_d_minus_one() {
    let r = RAID3::<4, 4>::zero();
    let data: usize = r.data_slots();
    assert_eq!(data, 3);
}

#[test]
fn stripe_trait_tests_stripe_write_sets_data_and_parity_then_read_returns_same() {
    let d0 = Bits::<4>([1, 2, 3, 4]);
    let d1 = Bits::<4>([5, 6, 7, 8]);
    let d2 = Bits::<4>([9, 10, 11, 12]);

    let mut r = RAID3::<4, 4>([Bits::zero(); 4]);

    r.write(&[d0, d1, d2]);

    assert_eq!(r.0[0], d0);
    assert_eq!(r.0[1], d1);
    assert_eq!(r.0[2], d2);

    let mut expected_p = Bits::<4>::zero();
    expected_p.xor_in_place(&d0);
    expected_p.xor_in_place(&d1);
    expected_p.xor_in_place(&d2);
    assert_eq!(r.0[3], expected_p);

    let mut out = [Bits::<4>::zero(); 3];
    r.read(&mut out);
    assert_eq!(out, [d0, d1, d2]);
}

#[test]
fn stripe_trait_tests_stripe_as_restore_returns_some() {
    let r = RAID3::<3, 4>([Bits::zero(); 3]);
    assert!(r.as_restore().is_some());
}
