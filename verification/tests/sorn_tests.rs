use sorn::endpoint::{Extended, Rat};
use sorn::sorn::{Sorn, SornErrors};
use sorn::sornset::{SornSet, SornValue};
use sorn::sorntable_gen::gen_table;

fn rat(num: i64, den: i64) -> Rat {
    Rat { num, den }
}

fn fin(num: i64, den: i64) -> Extended {
    Extended::Fin(rat(num, den))
}

fn exact(num: i64, den: i64) -> SornValue {
    SornValue::Exact(fin(num, den))
}

fn open(a: Extended, b: Extended) -> SornValue {
    SornValue::Open((a, b))
}

#[test]
fn test_new() {
}

#[test]
fn test_custom_new() {
}

#[test]
fn test_set_number() {
}

#[test]
fn test_set_bits() {
}

#[test]
fn test_sorn_to_bits_positive() {
    /*
    1: [0]
    10: (0, 1)
    100: [1]
    */
    let set = SornSet::new(rat(0, 1), rat(1, 1), rat(1, 1), false);
    let sorn = Sorn::new(&set);

    /* Intervals */
    let value = Sorn::sorn_to_bits(&sorn.sorn_set, &open(fin(0, 1), fin(1, 1)));
    assert_eq!(value, 0b10);

    let value = Sorn::sorn_to_bits(&sorn.sorn_set, &open(fin(0, 1), fin(2, 1)));
    assert_eq!(value, 0b110);
    let value = Sorn::sorn_to_bits(&sorn.sorn_set, &open(fin(0, 1), fin(1245345, 1000000)));
    assert_eq!(value, 0b110);

    let value = Sorn::sorn_to_bits(&sorn.sorn_set, &open(fin(-1, 1), fin(2, 1)));
    assert_eq!(value, 0b111);
    let value = Sorn::sorn_to_bits(&sorn.sorn_set, &open(fin(-1, 1000000000), fin(2, 1)));
    assert_eq!(value, 0b111);

    /* Exacts */
    let value = Sorn::sorn_to_bits(&sorn.sorn_set, &exact(0, 1));
    assert_eq!(value, 0b001);
    let value = Sorn::sorn_to_bits(&sorn.sorn_set, &exact(1, 1));
    assert_eq!(value, 0b100);
    let value = Sorn::sorn_to_bits(&sorn.sorn_set, &exact(1, 2));
    assert_eq!(value, 0b010);
}

#[test]
fn test_sorn_to_bits_negative() {
    /*
    1: [-2]
    10: (-2, -1)
    100: [-1]
    */
    let set = SornSet::new(rat(-2, 1), rat(-1, 1), rat(1, 1), false);
    let sorn = Sorn::new(&set);

    /* Intervals */
    let value = Sorn::sorn_to_bits(&sorn.sorn_set, &open(fin(-2, 1), fin(-1, 1)));
    assert_eq!(value, 0b10);

    let value = Sorn::sorn_to_bits(&sorn.sorn_set, &open(fin(-2, 1), fin(2, 1)));
    assert_eq!(value, 0b110);

    let value = Sorn::sorn_to_bits(&sorn.sorn_set, &open(fin(-1, 1), fin(2, 1)));
    assert_eq!(value, 0b000);

    /* Exacts */
    let value = Sorn::sorn_to_bits(&sorn.sorn_set, &exact(-2, 1));
    assert_eq!(value, 0b001);

    let value = Sorn::sorn_to_bits(&sorn.sorn_set, &exact(-1, 1));
    assert_eq!(value, 0b100);

    let value = Sorn::sorn_to_bits(&sorn.sorn_set, &exact(-3, 2));
    assert_eq!(value, 0b010);
}

#[test]
fn test_posneg_noinf_add() {
    /* CSV Format */
    let expected = ",1,10,100,1000,10000,\n\
                    1,0,0,1,10,100,\n\
                    10,0,11,10,1110,1000,\n\
                    100,1,10,100,1000,10000,\n\
                    1000,10,1110,1000,11000,0,\n\
                    10000,100,1000,10000,0,0,\n\
                    ";

    let set = SornSet::new(rat(-1, 1), rat(1, 1), rat(1, 1), false);
    let sorn1 = Sorn::new(&set);
    let table = gen_table(&sorn1.sorn_set, "add");

    println!("{}", table.to_csv());
    println!("{}", expected);

    assert_eq!(table.to_csv(), expected);
}

#[test]
fn test_neg_inf_add() {
    let expected = ",1,10,100,1000,10000,100000,\n\
                    1,1,111111,111111,111111,111111,111111,\n\
                    10,111111,10,10,10,10,111110,\n\
                    100,111111,10,10,10,100,111000,\n\
                    1000,111111,10,10,1110,1000,111000,\n\
                    10000,111111,10,100,1000,10000,100000,\n\
                    100000,111111,111110,111000,111000,100000,100000,\n\
                    ";

    let set = SornSet::new(rat(-1, 1), rat(0, 1), rat(1, 1), true);
    let sorn1 = Sorn::new(&set);
    let table = gen_table(&sorn1.sorn_set, "add");

    println!("{}", table.to_csv());
    println!("{}", expected);

    assert_eq!(table.to_csv(), expected);
}

#[test]
fn test_set_bits_in_and_out_of_range() {
    let set = SornSet::new(rat(0, 1), rat(1, 1), rat(1, 1), false);
    let mut sorn = Sorn::new(&set);
    assert!(sorn.set_bits(0b101).is_ok());
    assert_eq!(sorn.bits, 0b101);
    // Three elements: bit 3 reaches past the partition.
    assert!(matches!(sorn.set_bits(0b1000), Err(SornErrors::NotInRange)));
    assert_eq!(sorn.bits, 0b101);
}

#[test]
fn test_set_value_first_match() {
    let set = SornSet::new(rat(0, 1), rat(1, 1), rat(1, 1), false);
    let mut sorn = Sorn::new(&set);
    sorn.set_value(exact(1, 1));
    assert_eq!(sorn.bits, 0b100);
    sorn.set_value(exact(7, 1));
    assert_eq!(sorn.bits, 0);
}

#[test]
fn test_contains_and_fit_contains() {
    let set = SornSet::new(rat(0, 1), rat(1, 1), rat(1, 1), false);
    let mut sorn = Sorn::new(&set);
    sorn.set_bits(0b010).unwrap();
    assert!(sorn.contains(open(fin(0, 1), fin(1, 1))));
    assert!(!sorn.contains(exact(0, 1)));
    assert!(sorn.fit_contains(exact(1, 2)));
    assert!(!sorn.fit_contains(exact(0, 1)));
}

#[test]
fn test_min_max_range() {
    let set = SornSet::new(rat(0, 1), rat(1, 1), rat(1, 1), false);
    let mut sorn = Sorn::new(&set);
    sorn.set_bits(0b110).unwrap();
    let lo = sorn.get_min_range().unwrap();
    let hi = sorn.get_max_range().unwrap();
    assert!(matches!(lo, SornValue::Open(_)));
    assert!(matches!(hi, SornValue::Exact(_)));
    sorn.set_bits(0).unwrap();
    assert!(sorn.get_min_range().is_none());
    assert!(sorn.get_max_range().is_none());
}

#[test]
fn test_checked_add_identity_with_zero() {
    // P = [-1, 1] step 1 holds Exact(0); adding its mask leaves any
    // sentinel-free mask unchanged.
    let set = SornSet::new(rat(-1, 1), rat(1, 1), rat(1, 1), false);
    let mut a = Sorn::from_sornvalue(&set, open(fin(0, 1), fin(1, 1)));
    let zero = Sorn::from_sornvalue(&set, exact(0, 1));
    assert_eq!(zero.bits, 0b00100);
    let before = a.bits;
    assert!(a.checked_add(&zero).is_none());
    assert_eq!(a.bits, before);
    let mut b = Sorn::from_sornvalue(&set, open(fin(0, 1), fin(1, 1)));
    assert!(b.checked_sub(&zero).is_none());
    assert_eq!(b.bits, before);
}

#[test]
fn test_add_commutes() {
    let set = SornSet::new(rat(-1, 1), rat(1, 1), rat(1, 1), false);
    let a = Sorn::from_sornvalue(&set, open(fin(-1, 1), fin(0, 1)));
    let b = Sorn::from_sornvalue(&set, exact(1, 1));
    let ab = a.add(&b);
    let ba = b.add(&a);
    assert_eq!(ab.bits, ba.bits);
    let ab_m = a.mul(&b);
    let ba_m = b.mul(&a);
    assert_eq!(ab_m.bits, ba_m.bits);
}

#[test]
fn test_cache_transparency() {
    // The same operands give the same mask with a cold cache and with a
    // cache warmed by an earlier call.
    let cold = SornSet::new(rat(-1, 1), rat(1, 1), rat(1, 1), false);
    let mut warm1 = Sorn::from_sornvalue(&cold, open(fin(0, 1), fin(1, 1)));
    let warm2 = Sorn::from_sornvalue(&cold, exact(1, 1));
    let first = warm1.checked_add(&warm2);
    assert!(first.is_none());
    let warmed_bits = warm1.bits;
    // warm1's set now holds the memo entry; run the same op again on it.
    let mut again = Sorn::new(&warm1.sorn_set);
    again.set_bits(0b01000).unwrap();
    let two = Sorn::from_sornvalue(&warm1.sorn_set, exact(1, 1));
    assert!(again.checked_add(&two).is_none());
    assert_eq!(again.bits, warmed_bits);
}

#[test]
fn test_memo_round_trip() {
    let set = SornSet::new(rat(-1, 1), rat(1, 1), rat(1, 1), false);
    let mut a = Sorn::from_sornvalue(&set, open(fin(0, 1), fin(1, 1)));
    let b = Sorn::from_sornvalue(&set, exact(1, 1));
    let a0 = a.bits;
    assert!(!a.sorn_set.has_precomputed("add", a0, b.bits));
    assert!(a.checked_add(&b).is_none());
    let r1 = a.bits;
    assert!(a.sorn_set.has_precomputed("add", a0, b.bits));
    // mirrored key for the commutative operation
    assert!(a.sorn_set.has_precomputed("add", b.bits, a0));
    // run it again from the same starting mask: identical result
    let mut c = Sorn { bits: a0, sorn_set: a.sorn_set.duplicate() };
    assert!(c.checked_add(&b).is_none());
    assert_eq!(c.bits, r1);
}

#[test]
fn test_sub_not_mirrored() {
    let set = SornSet::new(rat(-1, 1), rat(1, 1), rat(1, 1), false);
    let mut a = Sorn::from_sornvalue(&set, open(fin(0, 1), fin(1, 1)));
    let b = Sorn::from_sornvalue(&set, exact(1, 1));
    let a0 = a.bits;
    assert!(a.checked_sub(&b).is_none());
    assert!(a.sorn_set.has_precomputed("sub", a0, b.bits));
    assert!(!a.sorn_set.has_precomputed("sub", b.bits, a0));
}

#[test]
fn test_push_clears_memo() {
    let set = SornSet::new(rat(-1, 1), rat(1, 1), rat(1, 1), false);
    let mut a = Sorn::from_sornvalue(&set, exact(0, 1));
    let b = Sorn::from_sornvalue(&set, exact(1, 1));
    let a0 = a.bits;
    assert!(a.checked_mul(&b).is_none());
    assert!(a.sorn_set.has_precomputed("mul", a0, b.bits));
    a.sorn_set.push(exact(2, 1));
    assert!(!a.sorn_set.has_precomputed("mul", a0, b.bits));
}

#[test]
fn test_different_partitions() {
    let set1 = SornSet::new(rat(-1, 1), rat(1, 1), rat(1, 1), false);
    let set2 = SornSet::new(rat(0, 1), rat(1, 1), rat(1, 1), false);
    let mut a = Sorn::from_sornvalue(&set1, exact(0, 1));
    let b = Sorn::from_sornvalue(&set2, exact(0, 1));
    let before = a.bits;
    let err = a.checked_add(&b);
    assert!(matches!(err, Some(SornErrors::DifferentSornSets)));
    assert_eq!(a.bits, before);
    // the convenience form swallows the error into an empty mask
    let c = a.add(&b);
    assert_eq!(c.bits, 0);
}

#[test]
fn test_double_negation() {
    let set = SornSet::new(rat(-1, 1), rat(1, 1), rat(1, 1), false);
    let mut a = Sorn::from_sornvalue(&set, open(fin(0, 1), fin(1, 1)));
    let mut n1 = a.negate();
    assert_eq!(n1.bits, 0b00010);
    let n2 = n1.negate();
    assert_eq!(n2.bits, a.bits);
}

#[test]
fn test_abs() {
    let set = SornSet::new(rat(-1, 1), rat(1, 1), rat(1, 1), false);
    let mut a = Sorn::from_sornvalue(&set, exact(-1, 1));
    let b = a.abs();
    assert_eq!(b.bits, 0b10000);
    let mut m = Sorn::from_sornvalue(&set, open(fin(-1, 1), fin(0, 1)));
    let n = m.abs();
    assert_eq!(n.bits, 0b01000);
}

#[test]
fn test_pow() {
    let set = SornSet::new(rat(-1, 1), rat(1, 1), rat(1, 1), false);
    let mut a = Sorn::from_sornvalue(&set, exact(-1, 1));
    let sq = a.pow(2);
    // (-1)^2 = 1
    assert_eq!(sq.bits, 0b10000);
    // cached under (bits, exponent); a different exponent recomputes
    let cube = a.pow(3);
    assert_eq!(cube.bits, 0b00001);
    let sq_again = a.pow(2);
    assert_eq!(sq_again.bits, 0b10000);
}

#[test]
fn test_pow_negative_exponent() {
    let set = SornSet::new(rat(-2, 1), rat(2, 1), rat(1, 1), false);
    let mut a = Sorn::from_sornvalue(&set, exact(2, 1));
    let inv = a.pow(-1);
    // 1/2 lies in the open gap (0, 1)
    let expected = Sorn::sorn_to_bits(&a.sorn_set, &exact(1, 2));
    assert_eq!(inv.bits, expected);
}

#[test]
fn test_table_matches_ops() {
    // Every table cell equals the operation of the matching unit masks.
    let set = SornSet::new(rat(-1, 1), rat(1, 1), rat(1, 1), false);
    let table = gen_table(&set, "mul");
    let n = set.len();
    for i in 0..n {
        for j in 0..n {
            let mut x = Sorn::new(&set);
            x.set_bits(1u128 << i).unwrap();
            let mut y = Sorn::new(&set);
            y.set_bits(1u128 << j).unwrap();
            assert!(x.checked_mul(&y).is_none());
            assert_eq!(table.table_data[j][i], x.bits);
        }
    }
}

#[test]
fn test_div_table_zero_row() {
    let set = SornSet::new(rat(-1, 1), rat(1, 1), rat(1, 1), false);
    let mut one = Sorn::from_sornvalue(&set, exact(1, 1));
    let zero = Sorn::from_sornvalue(&set, exact(0, 1));
    // 1 / 0 saturates past the partition: nothing overlaps.
    assert!(one.checked_div(&zero).is_none());
    assert_eq!(one.bits, 0);
    let mut four = Sorn::from_sornvalue(&set, exact(1, 1));
    let minus_one = Sorn::from_sornvalue(&set, exact(-1, 1));
    assert!(four.checked_div(&minus_one).is_none());
    assert_eq!(four.bits, 0b00001);
}

#[test]
fn test_get_ranges() {
    let set = SornSet::new(rat(0, 1), rat(1, 1), rat(1, 1), false);
    let mut sorn = Sorn::new(&set);
    sorn.set_bits(0b101).unwrap();
    let ranges = sorn.get_ranges();
    assert_eq!(ranges.len(), 2);
    assert!(matches!(ranges.get(0), SornValue::Exact(_)));
    assert!(matches!(ranges.get(1), SornValue::Exact(_)));
    assert!(ranges.first().is_some());
    assert!(!ranges.is_empty());
}

#[test]
fn test_one_bit_precomputed() {
    let set = SornSet::new(rat(0, 1), rat(2, 1), rat(1, 1), false);
    // elements: [0] (0,1) [1] (1,2) [2]; Exact(1) is bit 2
    assert_eq!(set.one_bit, 0b00100);
}

#[test]
fn test_from_string_matches_grid() {
    let parsed = SornSet::from_string("[0];(0,1);[1]");
    let grid = SornSet::new(rat(0, 1), rat(1, 1), rat(1, 1), false);
    assert_eq!(parsed.len(), grid.len());
    for v in [exact(0, 1), exact(1, 2), exact(1, 1), open(fin(0, 1), fin(2, 1))] {
        assert_eq!(
            Sorn::sorn_to_bits(&parsed, &v),
            Sorn::sorn_to_bits(&grid, &v)
        );
    }
    assert_eq!(parsed.one_bit, 0b100);
}

#[test]
fn test_from_string_half_open_and_decimal() {
    let set = SornSet::from_string("[-1.5,0);[0];(0,1.5]");
    assert_eq!(set.len(), 3);
    // -1.5 belongs to the left-closed interval, 0 only to the point.
    assert_eq!(Sorn::sorn_to_bits(&set, &exact(-3, 2)), 0b001);
    assert_eq!(Sorn::sorn_to_bits(&set, &exact(0, 1)), 0b010);
    assert_eq!(Sorn::sorn_to_bits(&set, &exact(3, 2)), 0b100);
    assert_eq!(Sorn::sorn_to_bits(&set, &exact(-1, 100)), 0b001);
}

#[test]
fn test_get_sets_between() {
    let set = SornSet::new(rat(-1, 1), rat(1, 1), rat(1, 1), false);
    let picked = set.get_sets_between(open(fin(-1, 2), fin(1, 2)));
    // overlaps (-1,0), [0] and (0,1)
    assert_eq!(picked.len(), 3);
    assert!(matches!(picked.get(0), SornValue::Open(_)));
    assert!(matches!(picked.get(1), SornValue::Exact(_)));
    assert!(matches!(picked.get(2), SornValue::Open(_)));
}

#[test]
fn test_default_set_is_empty() {
    let set = SornSet::default();
    assert!(set.is_empty());
    assert!(set.first().is_none());
    assert!(set.last().is_none());
    assert!(set.get_min_range().is_none());
    assert!(set.get_max_range().is_none());
    assert_eq!(set.one_bit, 0);
}

#[test]
fn test_to_string_hex() {
    let set = SornSet::new(rat(0, 1), rat(2, 1), rat(1, 1), false);
    let mut sorn = Sorn::new(&set);
    sorn.set_bits(0b11010).unwrap();
    assert_eq!(sorn.to_string_hex(), "1A");
    sorn.set_bits(0).unwrap();
    assert_eq!(sorn.to_string_hex(), "0");
}

#[test]
fn test_partial_cmp() {
    let lo = open(fin(-2, 1), fin(-1, 1));
    let hi = exact(0, 1);
    let hi2 = exact(0, 2);
    assert_eq!(lo.partial_cmp(&hi), Some(std::cmp::Ordering::Less));
    assert_eq!(hi.partial_cmp(&lo), Some(std::cmp::Ordering::Greater));
    assert_eq!(hi.partial_cmp(&hi2), Some(std::cmp::Ordering::Equal));
    assert_eq!(lo.partial_cmp(&open(fin(-3, 1), fin(0, 1))), None);
    assert!(lo < hi);
}

#[test]
fn test_sorn_eq() {
    let set = SornSet::new(rat(0, 1), rat(1, 1), rat(1, 1), false);
    let a = Sorn::from_sornvalue(&set, exact(0, 1));
    let b = Sorn::from_sornvalue(&set, exact(0, 1));
    let c = Sorn::from_sornvalue(&set, exact(1, 1));
    assert!(a == b);
    assert!(a != c);
    let other = SornSet::new(rat(0, 1), rat(2, 1), rat(1, 1), false);
    let d = Sorn::from_sornvalue(&other, exact(0, 1));
    assert!(a != d);
    assert!(set == set.duplicate());
    assert!(set != other);
}

#[test]
fn test_add_commutes_with_sentinels() {
    // Both operands carrying the sentinel: the saturating rule is
    // symmetric, so the committed masks agree in either order.
    let set = SornSet::new(rat(-1, 1), rat(0, 1), rat(1, 1), true);
    let mut a = Sorn::new(&set);
    a.set_bits(0b000001).unwrap();
    let mut b = Sorn::new(&set);
    b.set_bits(0b000011).unwrap();
    let mut ab = Sorn { bits: a.bits, sorn_set: set.duplicate() };
    let mut ba = Sorn { bits: b.bits, sorn_set: set.duplicate() };
    assert!(ab.checked_add(&b).is_none());
    assert!(ba.checked_add(&a).is_none());
    assert_eq!(ab.bits, ba.bits);
    assert_eq!(ab.bits, 0b000011);
}

#[test]
fn test_to_string_renderers() {
    let set = SornSet::new(rat(0, 1), rat(1, 1), rat(1, 1), false);
    let mut sorn = Sorn::new(&set);
    sorn.set_bits(0b011).unwrap();
    assert_eq!(sorn.to_string_nobits(), "[[0], (0,1)]");
    assert_eq!(sorn.to_string_hex_full(), "3 | Range: [[0], (0,1)]");
    assert_eq!(sorn.to_string_compact(), "0 to 1");
    let half = Sorn::from_sornvalue(&set, exact(1, 2));
    assert_eq!(half.to_string_nobits(), "[(0,1)]");
}

#[test]
fn test_table_to_string() {
    let set = SornSet::new(rat(0, 1), rat(1, 1), rat(1, 1), false);
    let table = gen_table(&set, "add");
    let text = table.to_string();
    assert!(text.starts_with("Sorn Set: [[0], (0,1), [1]]\n\t|\t1\t|\t10\t|\t100\t|\t\n"));
    assert!(text.contains(&"-".repeat(60)));
    assert!(text.ends_with("100\t|\t100\t|\t0\t|\t0\t|\t\n"));
}
