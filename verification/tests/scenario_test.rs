use simple_hdr_histogram::base::HistogramBase;
use simple_hdr_histogram::error::{DecodeError, RecordError};
use simple_hdr_histogram::histogram::{is_valid_configuration, SimpleHdrHistogram};
use simple_hdr_histogram::layout::{
    buckets_needed_for_value, counts_arr_len, counts_arr_len_for_buckets,
};
use simple_hdr_histogram::iterator::HistogramIterationValue;
use simple_hdr_histogram::percentile::{Percentile, PercentileLevel};
use simple_hdr_histogram::serialization::{decode, encode};
use simple_hdr_histogram::varint::{varint_read, varint_write, zig_zag_decode, zig_zag_encode};

fn histo(lowest: u64, highest: u64, digits: u32) -> SimpleHdrHistogram<u64> {
    assert!(is_valid_configuration(lowest, highest, digits));
    SimpleHdrHistogram::<u64>::new(lowest, highest, digits)
}

#[test]
fn empty_histogram_queries() {
    let h = histo(1, 100_000, 3);
    assert_eq!(0, h.get_count_at_value(1).unwrap());
    assert_eq!(0, h.get_count_at_value(5000).unwrap());
    assert_eq!(0, h.get_max());
    assert_eq!(u64::MAX, h.get_min_non_zero());
    assert_eq!(0, h.get_value_at_percentile(Percentile::from_percent(50)));
    assert_eq!(0, h.get_count());
}

#[test]
fn single_record_queries() {
    let mut h = histo(1, 100_000, 3);
    h.record(5000).unwrap();
    assert_eq!(1, h.get_count());
    assert_eq!(5000, h.get_max());
    assert_eq!(1, h.get_count_at_value(5000).unwrap());
    assert_eq!(
        h.lowest_equivalent_value(5000),
        h.get_value_at_percentile(Percentile::from_percent(0))
    );
    assert_eq!(
        h.highest_equivalent_value(5000),
        h.get_value_at_percentile(Percentile::from_percent(100))
    );
    assert_eq!(5000, h.lowest_equivalent_value(5003));
    assert_eq!(5003, h.highest_equivalent_value(5000));
    assert_eq!(4999, h.highest_equivalent_value(4996));
}

#[test]
fn sub_bucket_indexing() {
    let h = histo(1, 100_000, 3);
    assert_eq!(2, h.get_bucket_index(5000));
    assert_eq!(1250, h.get_sub_bucket_index(5000, 2));
    assert_eq!(3298, h.counts_array_index(5000));

    let mut coarse = histo(4, 100_000, 3);
    assert_eq!(0, coarse.get_bucket_index(5000));
    coarse.record_single_value(5000).unwrap();
    assert_eq!(5003, coarse.get_max());
}

#[test]
fn recorded_values_of_six_records() {
    let mut h = histo(1, 8191, 3);
    for v in [1, 2, 1024, 2049, 4099, 8191] {
        h.record_single_value(v).unwrap();
    }
    let mut values = Vec::new();
    let mut counts = Vec::new();
    let mut it = h.recorded_values().into_iter();
    while let Some(v) = it.next() {
        values.push(v.value_iterated_to);
        counts.push(v.count_at_value_iterated_to);
    }
    assert_eq!(vec![1, 2, 1024, 2049, 4099, 8191], values);
    assert_eq!(vec![1, 1, 1, 1, 1, 1], counts);
}

#[test]
fn recorded_values_report_running_totals() {
    let mut h = histo(1, 8191, 3);
    h.record_single_value(10).unwrap();
    h.record_single_value(10).unwrap();
    h.record_single_value(3000).unwrap();
    let mut it = h.recorded_values().into_iter();
    let first = it.next().unwrap();
    assert_eq!(10, first.value_iterated_to);
    assert_eq!(0, first.value_iterated_from);
    assert_eq!(2, first.count_added_in_this_iteration_step);
    assert_eq!(2, first.total_count_to_this_value);
    assert_eq!(20, first.total_value_to_this_value);
    assert_eq!(Percentile::new(2, 3), first.percentile);
    let second = it.next().unwrap();
    assert_eq!(3001, second.value_iterated_to);
    assert_eq!(10, second.value_iterated_from);
    assert_eq!(1, second.count_added_in_this_iteration_step);
    assert_eq!(3, second.total_count_to_this_value);
    assert_eq!(20 + 3001, second.total_value_to_this_value);
    assert_eq!(3, second.percentile_level_iterated_to.part);
    assert_eq!(3, second.percentile_level_iterated_to.whole);
    assert!(it.next().is_none());
    assert!(it.next().is_none());
}

#[test]
fn logarithmic_iterator_base_2_from_1() {
    let mut h = histo(1, 4095, 3);
    for v in [1, 2, 20, 25, 31, 1500, 1600, 1700, 4095] {
        h.record_single_value(v).unwrap();
    }
    let mut steps = Vec::new();
    let mut values = Vec::new();
    let mut it = h.logarithmic_bucket_values(1, 2).into_iter();
    while let Some(v) = it.next() {
        steps.push(v.count_added_in_this_iteration_step);
        values.push(v.value_iterated_to);
    }
    assert_eq!(vec![0, 1, 1, 0, 0, 3, 0, 0, 0, 0, 0, 3, 1], steps);
    assert_eq!(vec![0, 1, 3, 7, 15, 31, 63, 127, 255, 511, 1023, 2047, 4095], values);
}

#[test]
fn ranges_that_end_beyond_64_bits() {
    let mut h = histo(1, u64::MAX, 0);
    h.record_single_value(1).unwrap();
    h.record_single_value(u64::MAX).unwrap();

    // the ends of the ranges are the powers of two, less one, up to 2^64 - 1
    let mut values = Vec::new();
    let mut it = h.logarithmic_bucket_values(1, 2).into_iter();
    while let Some(v) = it.next() {
        values.push(v.value_iterated_to);
    }
    assert_eq!(65, values.len());
    assert_eq!(vec![0, 1, 3, 7], values[..4].to_vec());
    assert_eq!((1 << 63) - 1, values[63]);
    assert_eq!(u64::MAX, values[64]);

    // the last power of three within 64 bits lies in the last slot
    let mut values = Vec::new();
    let mut steps = Vec::new();
    let mut it = h.logarithmic_bucket_values(1, 3).into_iter();
    while let Some(v) = it.next() {
        values.push(v.value_iterated_to);
        steps.push(v.count_added_in_this_iteration_step);
    }
    assert_eq!(41, values.len());
    assert_eq!(12157665459056928801 - 1, values[40]);
    assert_eq!(1, steps[40]);
    assert_eq!(2u64, steps.iter().sum());

    // a range that ends beyond 64 bits is told as the largest value
    let mut values = Vec::new();
    let mut steps = Vec::new();
    let mut it = h.logarithmic_bucket_values(1, 1 << 40).into_iter();
    while let Some(v) = it.next() {
        values.push(v.value_iterated_to);
        steps.push(v.count_added_in_this_iteration_step);
    }
    assert_eq!(vec![0, (1 << 40) - 1, u64::MAX], values);
    assert_eq!(vec![0, 1, 1], steps);

    let mut values = Vec::new();
    let mut it = h.linear_bucket_values(1 << 63).into_iter();
    while let Some(v) = it.next() {
        values.push(v.value_iterated_to);
    }
    assert_eq!(vec![(1 << 63) - 1, u64::MAX], values);

    let mut values = Vec::new();
    let mut it = h.linear_bucket_values(u64::MAX).into_iter();
    while let Some(v) = it.next() {
        values.push(v.value_iterated_to);
    }
    assert_eq!(vec![u64::MAX - 1], values);
}

#[test]
fn percentile_iterator_matches_value_at_percentile() {
    let mut h = histo(1, 4095, 3);
    for i in 0..4096 {
        h.record_single_value(i).unwrap();
    }
    for ticks in 1..10 {
        let mut it = h.percentiles(ticks).into_iter();
        let mut steps = 0;
        while let Some(v) = it.next() {
            assert_eq!(v.value_iterated_to, h.get_value_at_percentile(v.percentile));
            steps += 1;
        }
        assert!(steps > 0);
    }
}

#[test]
fn percentile_levels_in_thirds() {
    let mut h = histo(1, 4095, 3);
    for i in 0..4096 {
        h.record_single_value(i).unwrap();
    }
    let mut levels = Vec::new();
    let mut it = h.percentiles(3).into_iter();
    while let Some(v) = it.next() {
        levels.push((v.percentile_level_iterated_to.part, v.percentile_level_iterated_to.whole));
        if levels.len() == 8 {
            break;
        }
    }
    // three ticks to 50 percent, three more to 75 percent, and so on
    assert_eq!(
        vec![(0, 6), (1, 6), (2, 6), (6, 12), (7, 12), (8, 12), (18, 24), (19, 24)],
        levels
    );
}

#[test]
fn varint_corner_cases() {
    let cases: Vec<(u64, Vec<u8>)> = vec![
        (0, vec![0x00]),
        (6, vec![0x06]),
        (127, vec![0x7F]),
        (128, vec![0x80, 0x01]),
        (256, vec![0x80, 0x02]),
        (1 << 56, vec![0x80, 0x80, 0x80, 0x80, 0x80, 0x80, 0x80, 0x80, 0x01]),
        (u64::MAX, vec![0xFF; 9]),
    ];
    for (value, bytes) in cases {
        let mut buf = Vec::new();
        varint_write(value, &mut buf);
        assert_eq!(bytes, buf);
        let mut position = 0;
        assert_eq!(Ok(value), varint_read(&buf, &mut position));
        assert_eq!(buf.len(), position);
    }
}

#[test]
fn varint_read_moves_on_and_tells_of_the_end() {
    let bytes = vec![0x80, 0x02, 0x06, 0xFF];
    let mut position = 0;
    assert_eq!(Ok(256), varint_read(&bytes, &mut position));
    assert_eq!(2, position);
    assert_eq!(Ok(6), varint_read(&bytes, &mut position));
    assert_eq!(3, position);
    assert_eq!(Err(DecodeError::TruncatedInput), varint_read(&bytes, &mut position));
    assert_eq!(3, position);
    position = 4;
    assert_eq!(Err(DecodeError::TruncatedInput), varint_read(&bytes, &mut position));
}

#[test]
fn varint_round_trip_on_chosen_values() {
    let mut value: u64 = 1;
    for _ in 0..64 {
        for v in [value - 1, value, value + 1, !value] {
            let mut buf = vec![0xAA];
            varint_write(v, &mut buf);
            buf.push(0x55);
            let mut position = 1;
            assert_eq!(Ok(v), varint_read(&buf, &mut position));
            assert_eq!(buf.len() - 1, position);
        }
        value = value.wrapping_mul(2);
    }
}

#[test]
fn zig_zag_corner_cases() {
    assert_eq!(0, zig_zag_encode(0));
    assert_eq!(1, zig_zag_encode(-1));
    assert_eq!(2, zig_zag_encode(1));
    assert_eq!(3, zig_zag_encode(-2));
    assert_eq!(u64::MAX - 1, zig_zag_encode(i64::MAX));
    assert_eq!(u64::MAX, zig_zag_encode(i64::MIN));
}

#[test]
fn zig_zag_round_trip_on_chosen_values() {
    for n in [0, 1, -1, 2, -2, 63, -64, 1 << 40, -(1 << 40), i64::MAX, i64::MIN, i64::MIN + 1] {
        assert_eq!(n, zig_zag_decode(zig_zag_encode(n)));
    }
    for u in [0, 1, 2, 3, u64::MAX, u64::MAX - 1, 1 << 63] {
        assert_eq!(u, zig_zag_encode(zig_zag_decode(u)));
    }
    assert_eq!(-1, zig_zag_decode(1));
    assert_eq!(i64::MIN, zig_zag_decode(u64::MAX));
}

#[test]
fn equivalent_values_share_a_slot() {
    for (lowest, digits) in [(1, 3), (4, 3), (1, 0), (1000, 2), (1, 5)] {
        let h = histo(lowest, 10_000_000, digits);
        for v in [0, 1, 3, 4, 5, 1023, 1024, 2047, 2048, 2049, 5000, 99_999, 1_000_003, u64::MAX] {
            let low = h.lowest_equivalent_value(v);
            let high = h.highest_equivalent_value(v);
            assert!(low <= v && v <= high);
            assert_eq!(h.counts_array_index(v), h.counts_array_index(low));
            assert_eq!(h.counts_array_index(v), h.counts_array_index(high));
            assert_eq!(high - low + 1, h.size_of_equivalent_value_range(v));
            if low > 0 {
                assert!(h.counts_array_index(low - 1) < h.counts_array_index(v));
            }
            if high < u64::MAX {
                assert_eq!(h.counts_array_index(v) + 1, h.counts_array_index(high + 1));
                assert_eq!(high + 1, h.next_non_equivalent_value(v));
            }
        }
    }
}

#[test]
fn larger_values_have_later_slots() {
    let h = histo(4, 1_000_000, 2);
    let mut previous = 0;
    let mut v: u64 = 0;
    while v < 3_000_000 {
        let index = h.counts_array_index(v);
        assert!(previous <= index);
        previous = index;
        v += 1 + v / 7;
    }
}

#[test]
fn slots_and_their_values_are_inverse() {
    let h = histo(4, 100_000, 3);
    for index in 0..h.counts_len() {
        let value = h.value_from_index(index);
        assert_eq!(index, h.counts_array_index(value));
        assert_eq!(value, h.lowest_equivalent_value(value));
        assert_eq!(value as u128, h.value_from_index_wide(index));
    }
    assert_eq!(1 << 17, h.value_from_index_wide(h.counts_len()));
    assert_eq!((1 << 17) + (1 << 7), h.value_from_index_wide(h.counts_len() + 1));
}

#[test]
fn relative_error_is_bounded() {
    for digits in 0..6 {
        let precision = 10u64.pow(digits);
        let h = histo(1, 1 << 40, digits);
        let mut v: u64 = 1;
        while v < 1 << 41 {
            if 2 * v >= precision {
                assert!(h.size_of_equivalent_value_range(v) * precision <= 2 * v);
            }
            v += 1 + v / 3;
        }
    }
    // below half of 10^digits units the bound does not hold
    let h = histo(1, 100_000, 3);
    assert!(h.size_of_equivalent_value_range(1) * 1000 > 2 * 1);
}

#[test]
fn total_is_the_number_of_successes_and_the_sum_of_the_counts() {
    let mut h = SimpleHdrHistogram::<u8>::new(1, 1000, 1);
    let mut successes = 0;
    for i in 0..3000u64 {
        if h.record_single_value(i % 700).is_ok() {
            successes += 1;
        }
    }
    assert_eq!(successes, h.get_count());
    let mut sum = 0;
    for index in 0..h.counts_len() {
        sum += h.get_count_at_index(index).unwrap() as u64;
    }
    assert_eq!(sum, h.get_count());
}

#[test]
fn value_at_percentile_grows_with_the_percentile() {
    let mut h = histo(1, 100_000, 2);
    for v in [3, 3, 17, 250, 251, 4000, 4000, 4000, 77_777, 100_000] {
        h.record_single_value(v).unwrap();
    }
    let mut previous = 0;
    for part in 0..=1000 {
        let value = h.get_value_at_percentile(Percentile::new(part, 1000));
        assert!(previous <= value);
        previous = value;
    }
    assert_eq!(3, h.get_value_at_percentile(Percentile::new(0, 1000)));
    assert_eq!(3, h.get_value_at_percentile(Percentile::new(1, 1000)));
    // 25 percent of 10 is 2.5, which rounds up to 3 values
    assert_eq!(17, h.get_value_at_percentile(Percentile::from_percent(25)));
    // 24.9 percent of 10 rounds down to 2 values
    assert_eq!(3, h.get_value_at_percentile(Percentile::new(249, 1000)));
    // beyond 100 percent, and no number at all, count as 100 percent
    assert_eq!(100_351, h.get_value_at_percentile(Percentile::from_percent(100)));
    assert_eq!(100_351, h.get_value_at_percentile(Percentile::from_percent(250)));
    assert_eq!(100_351, h.get_value_at_percentile(Percentile::new(0, 0)));
}

#[test]
fn count_at_percentile_rounds_half_up() {
    assert_eq!(1, Percentile::from_percent(0).count_at_percentile(5));
    assert_eq!(1, Percentile::from_percent(10).count_at_percentile(5));
    assert_eq!(2, Percentile::from_percent(30).count_at_percentile(5));
    assert_eq!(2, Percentile::from_percent(49).count_at_percentile(5));
    assert_eq!(3, Percentile::from_percent(50).count_at_percentile(5));
    assert_eq!(5, Percentile::from_percent(100).count_at_percentile(5));
    assert_eq!(5, Percentile::from_percent(101).count_at_percentile(5));
    assert_eq!(1, Percentile::from_percent(100).count_at_percentile(0));
    assert_eq!(
        u64::MAX - 1,
        Percentile::new(u64::MAX - 1, u64::MAX).count_at_percentile(u64::MAX)
    );
    assert_eq!(1, Percentile::new(1, 3).count_at_percentile(3));
    assert_eq!(2, Percentile::new(1, 2).count_at_percentile(3));
    // half of 2^64 - 1 is half a value short of 2^63
    assert_eq!(1 << 63, Percentile::new(1, 2).count_at_percentile(u64::MAX));
    assert_eq!((1 << 62) - 1, Percentile::new(1, 4).count_at_percentile(u64::MAX - 3));
}

#[test]
fn normalize_index_is_a_permutation() {
    let h = histo(1, 100_000, 3);
    for len in 1..12usize {
        for offset in -(len as i32) + 1..len as i32 {
            let mut seen = vec![false; len];
            for index in 0..len {
                let normalized = h.normalize_index(index, offset, len).unwrap();
                assert!(normalized < len);
                assert!(!seen[normalized]);
                seen[normalized] = true;
            }
            assert!(seen.iter().all(|&s| s));
        }
    }
    assert_eq!(Ok(7), h.normalize_index(7, 0, 3));
    assert_eq!(Err(RecordError::ValueOutOfRange), h.normalize_index(4, 1, 3));
    assert_eq!(Ok(2), h.normalize_index(3, 1, 3));
}

#[test]
fn record_tells_why_it_fails() {
    let mut h = SimpleHdrHistogram::<u8>::new(1, 1000, 1);
    assert_eq!(Err(RecordError::InvalidValue), h.record(-1));
    assert_eq!(Err(RecordError::InvalidValue), h.record(i64::MIN));
    assert_eq!(Err(RecordError::ValueOutOfRange), h.record(1 << 40));
    assert_eq!(Err(RecordError::ValueOutOfRange), h.record_single_value(u64::MAX));
    assert_eq!(0, h.get_count());
    for _ in 0..255 {
        assert_eq!(Ok(()), h.record(17));
    }
    assert_eq!(Err(RecordError::CountOverflow), h.record(17));
    assert_eq!(255, h.get_count());
    assert_eq!(255, h.get_count_at_value(17).unwrap());
    assert_eq!(17, h.get_max());
    assert_eq!(17, h.get_min_non_zero());
    assert_eq!(Ok(()), h.record(1000));
    assert_eq!(256, h.get_count());
}

#[test]
fn count_at_index_beyond_the_array_is_out_of_range() {
    let h = histo(1, 1000, 1);
    let len = h.counts_len();
    assert_eq!(Ok(0), h.get_count_at_index(len - 1));
    assert_eq!(Err(RecordError::ValueOutOfRange), h.get_count_at_index(len));
    assert_eq!(Err(RecordError::ValueOutOfRange), h.get_count_at_index(len + 1));
}

#[test]
fn counts_of_every_width_count() {
    let mut h8 = SimpleHdrHistogram::<u8>::new(1, 100_000, 3);
    let mut h16 = SimpleHdrHistogram::<u16>::new(1, 100_000, 3);
    let mut h32 = SimpleHdrHistogram::<u32>::new(1, 100_000, 3);
    let mut h64 = SimpleHdrHistogram::<u64>::new(1, 100_000, 3);
    assert_eq!(0u8, h8.get_count_at_value(7).unwrap());
    assert_eq!(0u16, h16.get_count_at_value(7).unwrap());
    assert_eq!(0u32, h32.get_count_at_value(7).unwrap());
    assert_eq!(0u64, h64.get_count_at_value(7).unwrap());
    for _ in 0..3 {
        h8.record_single_value(7).unwrap();
        h16.record_single_value(7).unwrap();
        h32.record_single_value(7).unwrap();
        h64.record_single_value(7).unwrap();
    }
    assert_eq!(3u8, h8.get_count_at_value(7).unwrap());
    assert_eq!(3u16, h16.get_count_at_value(7).unwrap());
    assert_eq!(3u32, h32.get_count_at_value(7).unwrap());
    assert_eq!(3u64, h64.get_count_at_value(7).unwrap());
    // the totals are summed from the counts, each taken as a 64-bit number
    assert_eq!(7, h8.get_value_at_percentile(Percentile::from_percent(100)));
    assert_eq!(7, h16.get_value_at_percentile(Percentile::from_percent(100)));
    assert_eq!(7, h32.get_value_at_percentile(Percentile::from_percent(100)));
    assert_eq!(7, h64.get_value_at_percentile(Percentile::from_percent(100)));
    assert_eq!(3, h8.recorded_values().into_iter().next().unwrap().total_count_to_this_value);
    assert_eq!(3, h16.recorded_values().into_iter().next().unwrap().total_count_to_this_value);
    assert_eq!(3, h32.recorded_values().into_iter().next().unwrap().total_count_to_this_value);
    assert_eq!(3, h64.recorded_values().into_iter().next().unwrap().total_count_to_this_value);
}

#[test]
fn layout_functions() {
    assert_eq!(1, buckets_needed_for_value(2047, 2048, 0));
    assert_eq!(2, buckets_needed_for_value(2048, 2048, 0));
    assert_eq!(64, buckets_needed_for_value(u64::MAX, 2, 0));
    assert_eq!(8 * 1024, counts_arr_len_for_buckets(7, 2048));
    assert_eq!(8 * 1024, counts_arr_len(100_000, 2048, 0));
    assert_eq!(6 * 1024, counts_arr_len(100_000, 2048, 2));
    assert_eq!(0, counts_arr_len_for_buckets(5, 1));
}

#[test]
fn parameters_are_checked() {
    assert!(is_valid_configuration(1, 2, 0));
    assert!(is_valid_configuration(1, u64::MAX, 5));
    assert!(!is_valid_configuration(0, 100, 3));
    assert!(!is_valid_configuration(1, 1, 3));
    assert!(!is_valid_configuration(100, 199, 3));
    assert!(!is_valid_configuration(1, 100, 6));
    assert!(!is_valid_configuration(u64::MAX, u64::MAX, 0));
    // the first bucket must end within 64 bits
    assert!(is_valid_configuration(1 << 45, 1 << 50, 5));
    assert!(!is_valid_configuration(1 << 46, 1 << 50, 5));
    assert!(is_valid_configuration(1 << 62, u64::MAX, 0));
}

#[test]
fn trait_methods_agree_with_the_histogram() {
    let mut h = histo(1, 100_000, 3);
    HistogramBase::record_single_value(&mut h, 5000).unwrap();
    assert_eq!(1, HistogramBase::get_count(&h));
    assert_eq!(5000, HistogramBase::get_max(&h));
    assert_eq!(5000, HistogramBase::get_min_non_zero(&h));
    assert_eq!(0, HistogramBase::get_unit_magnitude(&h));
    assert_eq!(1, HistogramBase::get_count_at_value(&h, 5001).unwrap());
    assert_eq!(4, HistogramBase::size_of_equivalent_value_range(&h, 5000));
    assert_eq!(5000, HistogramBase::next_non_equivalent_value(&h, 4999));
    assert_eq!(
        5003,
        HistogramBase::get_value_at_percentile(&h, Percentile::from_percent(50))
    );
    assert_eq!(5000, HistogramBase::lowest_equivalent_value(&h, 5002));
    assert_eq!(5003, HistogramBase::highest_equivalent_value(&h, 5002));
}

fn sample() -> SimpleHdrHistogram<u64> {
    let mut h = histo(1, 100_000, 3);
    for v in [0, 1, 1, 500, 2047, 40_000, 40_001, 99_999] {
        h.record_single_value(v).unwrap();
    }
    h
}

#[test]
fn encoding_layout() {
    let mut h = histo(1, 100_000, 3);
    h.record_single_value(2).unwrap();
    h.record_single_value(2).unwrap();
    h.record_single_value(5).unwrap();
    let mut bytes = vec![0xEE];
    encode(&h, &mut bytes);
    let expected: Vec<u8> = vec![
        0xEE, // what was there before
        0x1c, 0x84, 0x93, 0x83, // the tag, for counts of 8 bytes
        0, 0, 0, 4, // the payload has 4 bytes
        0, 0, 0, 0, // no rotation
        0, 0, 0, 3, // 3 significant digits
        0, 0, 0, 0, 0, 0, 0, 1, // the smallest discernible value
        0, 0, 0, 0, 0, 1, 0x86, 0xA0, // the highest trackable value
        0, 0, 0, 0, 0, 0, 0, 0, // no ratio
        0x03, // two empty slots: -2
        0x04, // a count of 2
        0x03, // two empty slots: -2
        0x02, // a count of 1
    ];
    assert_eq!(expected, bytes);
}

#[test]
fn encoding_then_decoding_gives_the_histogram_back() {
    let h = sample();
    let mut bytes = Vec::new();
    encode(&h, &mut bytes);
    let back = decode::<u64>(&bytes).unwrap();
    assert_eq!(h.get_lowest_discernible_value(), back.get_lowest_discernible_value());
    assert_eq!(h.get_highest_trackable_value(), back.get_highest_trackable_value());
    assert_eq!(h.get_significant_value_digits(), back.get_significant_value_digits());
    assert_eq!(h.get_normalizing_index_offset(), back.get_normalizing_index_offset());
    assert_eq!(h.counts_len(), back.counts_len());
    for index in 0..h.counts_len() {
        assert_eq!(h.get_count_at_index(index), back.get_count_at_index(index));
    }
    assert_eq!(h.get_count(), back.get_count());
    assert_eq!(8, back.get_count());
    assert_eq!(h.get_min_non_zero(), back.get_min_non_zero());
    // the largest value comes back as the highest value of its slot
    assert_eq!(99_999, h.get_max());
    assert_eq!(100_031, back.get_max());
    let mut again = Vec::new();
    encode(&back, &mut again);
    assert_eq!(bytes, again);
}

#[test]
fn encoding_then_decoding_keeps_trackers_that_the_counts_give() {
    let mut h = histo(4, 100_000, 2);
    // values at the lowest and at the highest value of their slots
    h.record_single_value(8).unwrap();
    h.record_single_value(1023).unwrap();
    let mut bytes = Vec::new();
    encode(&h, &mut bytes);
    let back = decode::<u64>(&bytes).unwrap();
    assert_eq!(8, back.get_min_non_zero());
    assert_eq!(1023, back.get_max());
    assert_eq!(h.get_min_non_zero(), back.get_min_non_zero());
    assert_eq!(h.get_max(), back.get_max());
    assert_eq!(2, back.get_count());
}

#[test]
fn empty_histogram_survives_encoding() {
    let h = SimpleHdrHistogram::<u16>::new(1000, 1_000_000, 2);
    let mut bytes = Vec::new();
    encode(&h, &mut bytes);
    assert_eq!(41, bytes.len());
    assert_eq!(vec![0x1c, 0x84, 0x93, 0x23], bytes[0..4].to_vec());
    assert_eq!(0x01, bytes[40]);
    let back = decode::<u16>(&bytes).unwrap();
    assert_eq!(0, back.get_count());
    assert_eq!(0, back.get_max());
    assert_eq!(u64::MAX, back.get_min_non_zero());
    assert_eq!(h.counts_len(), back.counts_len());
}

#[test]
fn decoding_takes_a_rotation() {
    let h = sample();
    let mut bytes = Vec::new();
    encode(&h, &mut bytes);
    // a rotation by 1024 slots; the counts are told by their logical index
    bytes[8..12].copy_from_slice(&[0, 0, 4, 0]);
    let back = decode::<u64>(&bytes).unwrap();
    assert_eq!(1024, back.get_normalizing_index_offset());
    for index in 0..h.counts_len() {
        assert_eq!(h.get_count_at_index(index), back.get_count_at_index(index));
    }
    assert_eq!(2, back.get_count_at_value(1).unwrap());
    let mut rotated = back;
    rotated.record_single_value(1).unwrap();
    assert_eq!(3, rotated.get_count_at_value(1).unwrap());
    assert_eq!(9, rotated.get_count());
    // a negative rotation
    bytes[8..12].copy_from_slice(&[0xFF, 0xFF, 0xFC, 0x00]);
    let back = decode::<u64>(&bytes).unwrap();
    assert_eq!(-1024, back.get_normalizing_index_offset());
    assert_eq!(2, back.get_count_at_value(40_000).unwrap());
    assert_eq!(1, back.get_count_at_value(500).unwrap());
    let mut again = Vec::new();
    encode(&back, &mut again);
    assert_eq!(bytes, again);
}

#[test]
fn decoding_tells_why_it_fails() {
    let h = sample();
    let mut bytes = Vec::new();
    encode(&h, &mut bytes);
    assert!(decode::<u64>(&bytes).is_ok());

    assert_eq!(Some(DecodeError::TruncatedInput), decode::<u64>(&bytes[..39]).err());
    assert_eq!(Some(DecodeError::TruncatedInput), decode::<u64>(&[]).err());
    assert_eq!(
        Some(DecodeError::TruncatedInput),
        decode::<u64>(&bytes[..bytes.len() - 1]).err()
    );
    // the tag tells the size of a count
    assert_eq!(Some(DecodeError::InvalidCookie), decode::<u32>(&bytes).err());
    let mut other = bytes.clone();
    other[0] = 0;
    assert_eq!(Some(DecodeError::InvalidCookie), decode::<u64>(&other).err());
    // six significant digits
    let mut other = bytes.clone();
    other[15] = 6;
    assert_eq!(Some(DecodeError::InvalidParameters), decode::<u64>(&other).err());
    // a smallest discernible value of 0
    let mut other = bytes.clone();
    other[23] = 0;
    assert_eq!(Some(DecodeError::InvalidParameters), decode::<u64>(&other).err());
    // a rotation by the length of the array
    let mut other = bytes.clone();
    other[8..12].copy_from_slice(&[0, 0, 0x20, 0]);
    assert_eq!(Some(DecodeError::InvalidParameters), decode::<u64>(&other).err());
    // a payload that ends within a number
    let mut other = bytes.clone();
    let last = other.len() - 1;
    other[last] = 0x80;
    assert_eq!(Some(DecodeError::MalformedVarint), decode::<u64>(&other).err());
    // a run of empty slots that leaves the array
    let mut other = bytes[..40].to_vec();
    other[7] = 3;
    other.extend_from_slice(&[0x81, 0x80, 0x01]);
    assert_eq!(Some(DecodeError::CountOutOfRange), decode::<u64>(&other).err());
}

#[test]
fn decoding_checks_the_counts() {
    // a count of 300 in a histogram of 8-bit counts
    let h = SimpleHdrHistogram::<u8>::new(1, 100_000, 3);
    let mut bytes = Vec::new();
    encode(&h, &mut bytes);
    let mut other = bytes[..40].to_vec();
    other[7] = 2;
    other.extend_from_slice(&[0xD8, 0x04]);
    assert_eq!(Some(DecodeError::CountOutOfRange), decode::<u8>(&other).err());
    // counts that sum to more than a total holds
    let h = SimpleHdrHistogram::<u64>::new(1, 100_000, 3);
    let mut bytes = Vec::new();
    encode(&h, &mut bytes);
    let mut other = bytes[..40].to_vec();
    other[7] = 18;
    for _ in 0..2 {
        // the zig-zag code of the largest signed number
        other.extend_from_slice(&[0xFE, 0xFF, 0xFF, 0xFF, 0xFF, 0xFF, 0xFF, 0xFF, 0xFF]);
    }
    assert_eq!(None, decode::<u64>(&other).err());
    other[7] = 27;
    other.extend_from_slice(&[0xFE, 0xFF, 0xFF, 0xFF, 0xFF, 0xFF, 0xFF, 0xFF, 0xFF]);
    assert_eq!(Some(DecodeError::CountOutOfRange), decode::<u64>(&other).err());
    // what follows the payload is not read
    let mut other = bytes.clone();
    other.extend_from_slice(&[0x80, 0x80]);
    assert!(decode::<u64>(&other).is_ok());
}

#[test]
fn histogram_from_counts() {
    let h = histo(1, 1000, 1);
    let len = h.counts_len();
    let mut counts = vec![0u64; len];
    counts[0] = 4;
    counts[5] = 2;
    counts[40] = 1;
    let built = SimpleHdrHistogram::<u64>::from_counts(1, 1000, 1, 3, counts.clone()).unwrap();
    assert_eq!(7, built.get_count());
    assert_eq!(5, built.get_min_non_zero());
    assert_eq!(built.highest_equivalent_value(built.value_from_index(40)), built.get_max());
    assert_eq!(3, built.get_normalizing_index_offset());
    for index in 0..len {
        assert_eq!(Ok(counts[index]), built.get_count_at_index(index));
    }
    counts[1] = u64::MAX;
    counts[2] = u64::MAX;
    assert!(SimpleHdrHistogram::<u64>::from_counts(1, 1000, 1, 0, counts).is_none());
}

#[test]
fn reset_forgets_what_was_recorded() {
    let mut h = sample();
    h.reset();
    assert_eq!(0, h.get_count());
    assert_eq!(0, h.get_max());
    assert_eq!(u64::MAX, h.get_min_non_zero());
    for index in 0..h.counts_len() {
        assert_eq!(Ok(0), h.get_count_at_index(index));
    }
    assert_eq!(100_000, h.get_highest_trackable_value());
    h.record_single_value(77).unwrap();
    assert_eq!(1, h.get_count());
    assert_eq!(77, h.get_max());
}

#[test]
fn value_at_count_walks_the_counts() {
    let h = sample();
    assert_eq!(0, h.get_value_at_count(1, true));
    assert_eq!(0, h.get_value_at_count(1, false));
    assert_eq!(1, h.get_value_at_count(2, false));
    assert_eq!(1, h.get_value_at_count(3, false));
    assert_eq!(500, h.get_value_at_count(4, false));
    assert_eq!(2047, h.get_value_at_count(5, false));
    assert_eq!(40_000, h.get_value_at_count(6, true));
    assert_eq!(40_031, h.get_value_at_count(6, false));
    assert_eq!(40_031, h.get_value_at_count(7, false));
    assert_eq!(100_031, h.get_value_at_count(8, false));
    assert_eq!(0, h.get_value_at_count(9, false));
}

#[test]
fn iteration_value_is_set_and_reset() {
    let mut value = HistogramIterationValue::<u32>::default();
    assert_eq!(0, value.value_iterated_to);
    assert_eq!(0, value.count_at_value_iterated_to);
    assert_eq!(Percentile::new(0, 0), value.percentile);
    value.set(9, 8, 7, 6, 5, 4, Percentile::new(3, 2), PercentileLevel { part: 1, whole: 2 });
    assert_eq!(9, value.value_iterated_to);
    assert_eq!(8, value.value_iterated_from);
    assert_eq!(7, value.count_at_value_iterated_to);
    assert_eq!(6, value.count_added_in_this_iteration_step);
    assert_eq!(5, value.total_count_to_this_value);
    assert_eq!(4, value.total_value_to_this_value);
    assert_eq!(Percentile::new(3, 2), value.percentile);
    assert_eq!(PercentileLevel { part: 1, whole: 2 }, value.percentile_level_iterated_to);
    value.reset();
    assert_eq!(0, value.value_iterated_to);
    assert_eq!(0, value.total_value_to_this_value);
    assert_eq!(PercentileLevel { part: 0, whole: 0 }, value.percentile_level_iterated_to);
}

#[test]
fn linear_iterator_in_steps_of_100() {
    let mut h = histo(1, 1000, 2);
    for v in [5, 150, 151, 990] {
        h.record_single_value(v).unwrap();
    }
    let mut steps = Vec::new();
    let mut it = h.linear_bucket_values(100).into_iter();
    while let Some(v) = it.next() {
        steps.push((v.value_iterated_to, v.count_added_in_this_iteration_step));
    }
    assert_eq!(
        vec![
            (99, 1),
            (199, 2),
            (299, 0),
            (399, 0),
            (499, 0),
            (599, 0),
            (699, 0),
            (799, 0),
            (899, 0),
            (999, 1)
        ],
        steps
    );
}

#[test]
fn iterators_of_an_empty_histogram() {
    let h = histo(1, 1000, 1);
    assert!(h.recorded_values().into_iter().next().is_none());
    assert!(h.percentiles(5).into_iter().next().is_none());
    let mut all = h.all_values().into_iter();
    let mut slots = 0;
    while let Some(v) = all.next() {
        assert_eq!(0, v.count_at_value_iterated_to);
        assert_eq!(0, v.percentile.whole);
        slots += 1;
    }
    assert_eq!(h.counts_len(), slots);
}
