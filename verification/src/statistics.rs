//! Running statistics of a page, a chunk or a series: the time range, the
//! least, largest, first and last value, the number of values and their sum.
use crate::float_bits::{
    add_doubles, double_less, double_lt, double_sum, float_less, float_lt, float_to_double,
    widen_float, DOUBLE_MAX_BITS, DOUBLE_MIN_BITS, FLOAT_MAX_BITS, FLOAT_MIN_BITS,
};
use crate::utils::{
    be_bytes_i32, be_bytes_i64, be_bytes_u32, be_bytes_u64, i32_bits, i64_bits,
    lemma_be_bytes_len, size_var_u32, var_u32_bytes,
    write_i32_be, write_i64_be, write_u32_be, write_u64_be, write_var_u32,
};
use crate::{IoTDBValue, TSDataType};
use vstd::prelude::*;

verus! {

/// One sample of a series: a timestamp and a value.
pub type Sample = (i64, IoTDBValue);

/// The statistics of values of type `T` with sums of type `S`. For the
/// floating-point series `T` and `S` are the types of the bit patterns.
#[derive(Clone, Copy, Debug)]
pub struct StatisticsStruct<T, S> {
    /// The least timestamp seen; the largest 64-bit number before any.
    pub ts_first: i64,
    /// The largest timestamp seen; the least 64-bit number before any.
    pub ts_last: i64,
    pub min_value: T,
    pub max_value: T,
    /// The value that came with the least timestamp.
    pub first_value: T,
    /// The value that came with the largest timestamp.
    pub last_value: T,
    /// The number of values, counted in wrapping 32-bit arithmetic.
    pub count: u32,
    pub sum_value: S,
}

impl StatisticsStruct<i32, i64> {
    /// The statistics of no values.
    pub open spec fn initial() -> Self {
        StatisticsStruct {
            ts_first: i64::MAX,
            ts_last: i64::MIN,
            min_value: i32::MAX,
            max_value: i32::MIN,
            first_value: 0,
            last_value: 0,
            count: 0,
            sum_value: 0,
        }
    }

    /// The statistics after one more sample. The count and the sum wrap.
    pub open spec fn updated(self, timestamp: i64, value: i32) -> Self {
        StatisticsStruct {
            ts_first: if timestamp < self.ts_first {
                timestamp
            } else {
                self.ts_first
            },
            ts_last: if timestamp > self.ts_last {
                timestamp
            } else {
                self.ts_last
            },
            min_value: if value < self.min_value {
                value
            } else {
                self.min_value
            },
            max_value: if self.max_value < value {
                value
            } else {
                self.max_value
            },
            first_value: if timestamp < self.ts_first {
                value
            } else {
                self.first_value
            },
            last_value: if timestamp > self.ts_last {
                value
            } else {
                self.last_value
            },
            count: self.count.wrapping_add(1),
            sum_value: self.sum_value.wrapping_add(value as i64),
        }
    }

    /// The statistics of two runs of samples together, from the statistics
    /// of each: first and last go by the timestamps, not by the order of the
    /// runs.
    pub open spec fn merged(self, other: Self) -> Self {
        StatisticsStruct {
            ts_first: if other.ts_first < self.ts_first {
                other.ts_first
            } else {
                self.ts_first
            },
            ts_last: if other.ts_last > self.ts_last {
                other.ts_last
            } else {
                self.ts_last
            },
            min_value: if other.min_value < self.min_value {
                other.min_value
            } else {
                self.min_value
            },
            max_value: if self.max_value < other.max_value {
                other.max_value
            } else {
                self.max_value
            },
            first_value: if other.ts_first < self.ts_first {
                other.first_value
            } else {
                self.first_value
            },
            last_value: if other.ts_last > self.ts_last {
                other.last_value
            } else {
                self.last_value
            },
            count: self.count.wrapping_add(other.count),
            sum_value: self.sum_value.wrapping_add(other.sum_value),
        }
    }

    /// The bytes of the statistics in a file: the count as a
    /// variable-length integer, then the time range, the four values and the
    /// sum in big-endian bytes.
    pub open spec fn serialized(self) -> Seq<u8> {
        var_u32_bytes(self.count) + be_bytes_i64(self.ts_first) + be_bytes_i64(self.ts_last)
            + be_bytes_i32(self.min_value) + be_bytes_i32(self.max_value) + be_bytes_i32(self.first_value)
            + be_bytes_i32(self.last_value) + be_bytes_i64(self.sum_value)
    }

    /// The statistics of no values.
    pub fn new() -> (statistics: Self)
        ensures
            statistics == Self::initial(),
    {
        StatisticsStruct {
            ts_first: i64::MAX,
            ts_last: i64::MIN,
            min_value: i32::MAX,
            max_value: i32::MIN,
            first_value: 0,
            last_value: 0,
            count: 0,
            sum_value: 0,
        }
    }

    /// Takes one more sample.
    pub fn update(&mut self, timestamp: i64, value: i32)
        ensures
            *final(self) == old(self).updated(timestamp, value),
    {
        if timestamp < self.ts_first {
            self.ts_first = timestamp;
            self.first_value = value;
        }
        if timestamp > self.ts_last {
            self.ts_last = timestamp;
            self.last_value = value;
        }
        if value < self.min_value {
            self.min_value = value;
        }
        if value > self.max_value {
            self.max_value = value;
        }
        self.count = self.count.wrapping_add(1);
        self.sum_value = self.sum_value.wrapping_add(value as i64);
    }

    /// Takes in the statistics of another run of samples.
    pub fn merge(&mut self, statistics: &Self)
        ensures
            *final(self) == old(self).merged(*statistics),
    {
        if statistics.ts_first < self.ts_first {
            self.ts_first = statistics.ts_first;
            self.first_value = statistics.first_value;
        }
        if statistics.ts_last > self.ts_last {
            self.ts_last = statistics.ts_last;
            self.last_value = statistics.last_value;
        }
        if statistics.max_value > self.max_value {
            self.max_value = statistics.max_value;
        }
        if statistics.min_value < self.min_value {
            self.min_value = statistics.min_value;
        }
        self.count = self.count.wrapping_add(statistics.count);
        self.sum_value = self.sum_value.wrapping_add(statistics.sum_value);
    }

    /// Appends the bytes of the statistics to `buffer`.
    pub fn serialize(&self, buffer: &mut Vec<u8>)
        ensures
            final(buffer)@ == old(buffer)@ + self.serialized(),
    {
        let ghost start = buffer@;
        write_var_u32(self.count, buffer);
        let ghost part = var_u32_bytes(self.count);
        write_i64_be(self.ts_first, buffer);
        assert(buffer@ =~= start + (part + be_bytes_i64(self.ts_first)));
        let ghost part = part + be_bytes_i64(self.ts_first);
        write_i64_be(self.ts_last, buffer);
        assert(buffer@ =~= start + (part + be_bytes_i64(self.ts_last)));
        let ghost part = part + be_bytes_i64(self.ts_last);
        write_i32_be(self.min_value, buffer);
        assert(buffer@ =~= start + (part + be_bytes_i32(self.min_value)));
        let ghost part = part + be_bytes_i32(self.min_value);
        write_i32_be(self.max_value, buffer);
        assert(buffer@ =~= start + (part + be_bytes_i32(self.max_value)));
        let ghost part = part + be_bytes_i32(self.max_value);
        write_i32_be(self.first_value, buffer);
        assert(buffer@ =~= start + (part + be_bytes_i32(self.first_value)));
        let ghost part = part + be_bytes_i32(self.first_value);
        write_i32_be(self.last_value, buffer);
        assert(buffer@ =~= start + (part + be_bytes_i32(self.last_value)));
        let ghost part = part + be_bytes_i32(self.last_value);
        write_i64_be(self.sum_value, buffer);
        assert(buffer@ =~= start + (part + be_bytes_i64(self.sum_value)));
    }

    /// The size that is reckoned for the statistics when memory is
    /// estimated: the bytes of the count, 16 for the time range and 24 for
    /// the values and the sum.
    pub fn get_serialized_size(&self) -> (size: u32)
        ensures
            size == var_u32_bytes(self.count).len() + 16 + 24,
    {
        size_var_u32(self.count) as u32 + 16 + 24
    }
}

impl StatisticsStruct<i64, i64> {
    /// The statistics of no values.
    pub open spec fn initial() -> Self {
        StatisticsStruct {
            ts_first: i64::MAX,
            ts_last: i64::MIN,
            min_value: i64::MAX,
            max_value: i64::MIN,
            first_value: 0,
            last_value: 0,
            count: 0,
            sum_value: 0,
        }
    }

    /// The statistics after one more sample. The count and the sum wrap.
    pub open spec fn updated(self, timestamp: i64, value: i64) -> Self {
        StatisticsStruct {
            ts_first: if timestamp < self.ts_first {
                timestamp
            } else {
                self.ts_first
            },
            ts_last: if timestamp > self.ts_last {
                timestamp
            } else {
                self.ts_last
            },
            min_value: if value < self.min_value {
                value
            } else {
                self.min_value
            },
            max_value: if self.max_value < value {
                value
            } else {
                self.max_value
            },
            first_value: if timestamp < self.ts_first {
                value
            } else {
                self.first_value
            },
            last_value: if timestamp > self.ts_last {
                value
            } else {
                self.last_value
            },
            count: self.count.wrapping_add(1),
            sum_value: self.sum_value.wrapping_add(value),
        }
    }

    /// The statistics of two runs of samples together, from the statistics
    /// of each: first and last go by the timestamps, not by the order of the
    /// runs.
    pub open spec fn merged(self, other: Self) -> Self {
        StatisticsStruct {
            ts_first: if other.ts_first < self.ts_first {
                other.ts_first
            } else {
                self.ts_first
            },
            ts_last: if other.ts_last > self.ts_last {
                other.ts_last
            } else {
                self.ts_last
            },
            min_value: if other.min_value < self.min_value {
                other.min_value
            } else {
                self.min_value
            },
            max_value: if self.max_value < other.max_value {
                other.max_value
            } else {
                self.max_value
            },
            first_value: if other.ts_first < self.ts_first {
                other.first_value
            } else {
                self.first_value
            },
            last_value: if other.ts_last > self.ts_last {
                other.last_value
            } else {
                self.last_value
            },
            count: self.count.wrapping_add(other.count),
            sum_value: self.sum_value.wrapping_add(other.sum_value),
        }
    }

    /// The bytes of the statistics in a file: the count as a
    /// variable-length integer, then the time range, the four values and the
    /// sum in big-endian bytes.
    pub open spec fn serialized(self) -> Seq<u8> {
        var_u32_bytes(self.count) + be_bytes_i64(self.ts_first) + be_bytes_i64(self.ts_last)
            + be_bytes_i64(self.min_value) + be_bytes_i64(self.max_value) + be_bytes_i64(self.first_value)
            + be_bytes_i64(self.last_value) + be_bytes_i64(self.sum_value)
    }

    /// The statistics of no values.
    pub fn new() -> (statistics: Self)
        ensures
            statistics == Self::initial(),
    {
        StatisticsStruct {
            ts_first: i64::MAX,
            ts_last: i64::MIN,
            min_value: i64::MAX,
            max_value: i64::MIN,
            first_value: 0,
            last_value: 0,
            count: 0,
            sum_value: 0,
        }
    }

    /// Takes one more sample.
    pub fn update(&mut self, timestamp: i64, value: i64)
        ensures
            *final(self) == old(self).updated(timestamp, value),
    {
        if timestamp < self.ts_first {
            self.ts_first = timestamp;
            self.first_value = value;
        }
        if timestamp > self.ts_last {
            self.ts_last = timestamp;
            self.last_value = value;
        }
        if value < self.min_value {
            self.min_value = value;
        }
        if value > self.max_value {
            self.max_value = value;
        }
        self.count = self.count.wrapping_add(1);
        self.sum_value = self.sum_value.wrapping_add(value);
    }

    /// Takes in the statistics of another run of samples.
    pub fn merge(&mut self, statistics: &Self)
        ensures
            *final(self) == old(self).merged(*statistics),
    {
        if statistics.ts_first < self.ts_first {
            self.ts_first = statistics.ts_first;
            self.first_value = statistics.first_value;
        }
        if statistics.ts_last > self.ts_last {
            self.ts_last = statistics.ts_last;
            self.last_value = statistics.last_value;
        }
        if statistics.max_value > self.max_value {
            self.max_value = statistics.max_value;
        }
        if statistics.min_value < self.min_value {
            self.min_value = statistics.min_value;
        }
        self.count = self.count.wrapping_add(statistics.count);
        self.sum_value = self.sum_value.wrapping_add(statistics.sum_value);
    }

    /// Appends the bytes of the statistics to `buffer`.
    pub fn serialize(&self, buffer: &mut Vec<u8>)
        ensures
            final(buffer)@ == old(buffer)@ + self.serialized(),
    {
        let ghost start = buffer@;
        write_var_u32(self.count, buffer);
        let ghost part = var_u32_bytes(self.count);
        write_i64_be(self.ts_first, buffer);
        assert(buffer@ =~= start + (part + be_bytes_i64(self.ts_first)));
        let ghost part = part + be_bytes_i64(self.ts_first);
        write_i64_be(self.ts_last, buffer);
        assert(buffer@ =~= start + (part + be_bytes_i64(self.ts_last)));
        let ghost part = part + be_bytes_i64(self.ts_last);
        write_i64_be(self.min_value, buffer);
        assert(buffer@ =~= start + (part + be_bytes_i64(self.min_value)));
        let ghost part = part + be_bytes_i64(self.min_value);
        write_i64_be(self.max_value, buffer);
        assert(buffer@ =~= start + (part + be_bytes_i64(self.max_value)));
        let ghost part = part + be_bytes_i64(self.max_value);
        write_i64_be(self.first_value, buffer);
        assert(buffer@ =~= start + (part + be_bytes_i64(self.first_value)));
        let ghost part = part + be_bytes_i64(self.first_value);
        write_i64_be(self.last_value, buffer);
        assert(buffer@ =~= start + (part + be_bytes_i64(self.last_value)));
        let ghost part = part + be_bytes_i64(self.last_value);
        write_i64_be(self.sum_value, buffer);
        assert(buffer@ =~= start + (part + be_bytes_i64(self.sum_value)));
    }

    /// The size that is reckoned for the statistics when memory is
    /// estimated: the bytes of the count, 16 for the time range and 40 for
    /// the values and the sum.
    pub fn get_serialized_size(&self) -> (size: u32)
        ensures
            size == var_u32_bytes(self.count).len() + 16 + 40,
    {
        size_var_u32(self.count) as u32 + 16 + 40
    }
}

impl StatisticsStruct<u32, u64> {
    /// The statistics of no values.
    pub open spec fn initial() -> Self {
        StatisticsStruct {
            ts_first: i64::MAX,
            ts_last: i64::MIN,
            min_value: FLOAT_MAX_BITS,
            max_value: FLOAT_MIN_BITS,
            first_value: 0,
            last_value: 0,
            count: 0,
            sum_value: 0,
        }
    }

    /// The statistics after one more sample. The count wraps; the sum is a double-precision one.
    pub open spec fn updated(self, timestamp: i64, value: u32) -> Self {
        StatisticsStruct {
            ts_first: if timestamp < self.ts_first {
                timestamp
            } else {
                self.ts_first
            },
            ts_last: if timestamp > self.ts_last {
                timestamp
            } else {
                self.ts_last
            },
            min_value: if float_less(value, self.min_value) {
                value
            } else {
                self.min_value
            },
            max_value: if float_less(self.max_value, value) {
                value
            } else {
                self.max_value
            },
            first_value: if timestamp < self.ts_first {
                value
            } else {
                self.first_value
            },
            last_value: if timestamp > self.ts_last {
                value
            } else {
                self.last_value
            },
            count: self.count.wrapping_add(1),
            sum_value: double_sum(self.sum_value, float_to_double(value)),
        }
    }

    /// The statistics of two runs of samples together, from the statistics
    /// of each: first and last go by the timestamps, not by the order of the
    /// runs.
    pub open spec fn merged(self, other: Self) -> Self {
        StatisticsStruct {
            ts_first: if other.ts_first < self.ts_first {
                other.ts_first
            } else {
                self.ts_first
            },
            ts_last: if other.ts_last > self.ts_last {
                other.ts_last
            } else {
                self.ts_last
            },
            min_value: if float_less(other.min_value, self.min_value) {
                other.min_value
            } else {
                self.min_value
            },
            max_value: if float_less(self.max_value, other.max_value) {
                other.max_value
            } else {
                self.max_value
            },
            first_value: if other.ts_first < self.ts_first {
                other.first_value
            } else {
                self.first_value
            },
            last_value: if other.ts_last > self.ts_last {
                other.last_value
            } else {
                self.last_value
            },
            count: self.count.wrapping_add(other.count),
            sum_value: double_sum(self.sum_value, other.sum_value),
        }
    }

    /// The bytes of the statistics in a file: the count as a
    /// variable-length integer, then the time range, the four values and the
    /// sum in big-endian bytes.
    pub open spec fn serialized(self) -> Seq<u8> {
        var_u32_bytes(self.count) + be_bytes_i64(self.ts_first) + be_bytes_i64(self.ts_last)
            + be_bytes_u32(self.min_value) + be_bytes_u32(self.max_value) + be_bytes_u32(self.first_value)
            + be_bytes_u32(self.last_value) + be_bytes_u64(self.sum_value)
    }

    /// The statistics of no values.
    pub fn new() -> (statistics: Self)
        ensures
            statistics == Self::initial(),
    {
        StatisticsStruct {
            ts_first: i64::MAX,
            ts_last: i64::MIN,
            min_value: FLOAT_MAX_BITS,
            max_value: FLOAT_MIN_BITS,
            first_value: 0,
            last_value: 0,
            count: 0,
            sum_value: 0,
        }
    }

    /// Takes one more sample.
    pub fn update(&mut self, timestamp: i64, value: u32)
        ensures
            *final(self) == old(self).updated(timestamp, value),
    {
        if timestamp < self.ts_first {
            self.ts_first = timestamp;
            self.first_value = value;
        }
        if timestamp > self.ts_last {
            self.ts_last = timestamp;
            self.last_value = value;
        }
        if float_lt(value, self.min_value) {
            self.min_value = value;
        }
        if float_lt(self.max_value, value) {
            self.max_value = value;
        }
        self.count = self.count.wrapping_add(1);
        self.sum_value = add_doubles(self.sum_value, widen_float(value));
    }

    /// Takes in the statistics of another run of samples.
    pub fn merge(&mut self, statistics: &Self)
        ensures
            *final(self) == old(self).merged(*statistics),
    {
        if statistics.ts_first < self.ts_first {
            self.ts_first = statistics.ts_first;
            self.first_value = statistics.first_value;
        }
        if statistics.ts_last > self.ts_last {
            self.ts_last = statistics.ts_last;
            self.last_value = statistics.last_value;
        }
        if float_lt(self.max_value, statistics.max_value) {
            self.max_value = statistics.max_value;
        }
        if float_lt(statistics.min_value, self.min_value) {
            self.min_value = statistics.min_value;
        }
        self.count = self.count.wrapping_add(statistics.count);
        self.sum_value = add_doubles(self.sum_value, statistics.sum_value);
    }

    /// Appends the bytes of the statistics to `buffer`.
    pub fn serialize(&self, buffer: &mut Vec<u8>)
        ensures
            final(buffer)@ == old(buffer)@ + self.serialized(),
    {
        let ghost start = buffer@;
        write_var_u32(self.count, buffer);
        let ghost part = var_u32_bytes(self.count);
        write_i64_be(self.ts_first, buffer);
        assert(buffer@ =~= start + (part + be_bytes_i64(self.ts_first)));
        let ghost part = part + be_bytes_i64(self.ts_first);
        write_i64_be(self.ts_last, buffer);
        assert(buffer@ =~= start + (part + be_bytes_i64(self.ts_last)));
        let ghost part = part + be_bytes_i64(self.ts_last);
        write_u32_be(self.min_value, buffer);
        assert(buffer@ =~= start + (part + be_bytes_u32(self.min_value)));
        let ghost part = part + be_bytes_u32(self.min_value);
        write_u32_be(self.max_value, buffer);
        assert(buffer@ =~= start + (part + be_bytes_u32(self.max_value)));
        let ghost part = part + be_bytes_u32(self.max_value);
        write_u32_be(self.first_value, buffer);
        assert(buffer@ =~= start + (part + be_bytes_u32(self.first_value)));
        let ghost part = part + be_bytes_u32(self.first_value);
        write_u32_be(self.last_value, buffer);
        assert(buffer@ =~= start + (part + be_bytes_u32(self.last_value)));
        let ghost part = part + be_bytes_u32(self.last_value);
        write_u64_be(self.sum_value, buffer);
        assert(buffer@ =~= start + (part + be_bytes_u64(self.sum_value)));
    }

    /// The size that is reckoned for the statistics when memory is
    /// estimated: the bytes of the count, 16 for the time range and 40 for
    /// the values and the sum.
    pub fn get_serialized_size(&self) -> (size: u32)
        ensures
            size == var_u32_bytes(self.count).len() + 16 + 40,
    {
        size_var_u32(self.count) as u32 + 16 + 40
    }
}

impl StatisticsStruct<u64, u64> {
    /// The statistics of no values.
    pub open spec fn initial() -> Self {
        StatisticsStruct {
            ts_first: i64::MAX,
            ts_last: i64::MIN,
            min_value: DOUBLE_MAX_BITS,
            max_value: DOUBLE_MIN_BITS,
            first_value: 0,
            last_value: 0,
            count: 0,
            sum_value: 0,
        }
    }

    /// The statistics after one more sample. The count wraps.
    pub open spec fn updated(self, timestamp: i64, value: u64) -> Self {
        StatisticsStruct {
            ts_first: if timestamp < self.ts_first {
                timestamp
            } else {
                self.ts_first
            },
            ts_last: if timestamp > self.ts_last {
                timestamp
            } else {
                self.ts_last
            },
            min_value: if double_less(value, self.min_value) {
                value
            } else {
                self.min_value
            },
            max_value: if double_less(self.max_value, value) {
                value
            } else {
                self.max_value
            },
            first_value: if timestamp < self.ts_first {
                value
            } else {
                self.first_value
            },
            last_value: if timestamp > self.ts_last {
                value
            } else {
                self.last_value
            },
            count: self.count.wrapping_add(1),
            sum_value: double_sum(self.sum_value, value),
        }
    }

    /// The statistics of two runs of samples together, from the statistics
    /// of each: first and last go by the timestamps, not by the order of the
    /// runs.
    pub open spec fn merged(self, other: Self) -> Self {
        StatisticsStruct {
            ts_first: if other.ts_first < self.ts_first {
                other.ts_first
            } else {
                self.ts_first
            },
            ts_last: if other.ts_last > self.ts_last {
                other.ts_last
            } else {
                self.ts_last
            },
            min_value: if double_less(other.min_value, self.min_value) {
                other.min_value
            } else {
                self.min_value
            },
            max_value: if double_less(self.max_value, other.max_value) {
                other.max_value
            } else {
                self.max_value
            },
            first_value: if other.ts_first < self.ts_first {
                other.first_value
            } else {
                self.first_value
            },
            last_value: if other.ts_last > self.ts_last {
                other.last_value
            } else {
                self.last_value
            },
            count: self.count.wrapping_add(other.count),
            sum_value: double_sum(self.sum_value, other.sum_value),
        }
    }

    /// The bytes of the statistics in a file: the count as a
    /// variable-length integer, then the time range, the four values and the
    /// sum in big-endian bytes.
    pub open spec fn serialized(self) -> Seq<u8> {
        var_u32_bytes(self.count) + be_bytes_i64(self.ts_first) + be_bytes_i64(self.ts_last)
            + be_bytes_u64(self.min_value) + be_bytes_u64(self.max_value) + be_bytes_u64(self.first_value)
            + be_bytes_u64(self.last_value) + be_bytes_u64(self.sum_value)
    }

    /// The statistics of no values.
    pub fn new() -> (statistics: Self)
        ensures
            statistics == Self::initial(),
    {
        StatisticsStruct {
            ts_first: i64::MAX,
            ts_last: i64::MIN,
            min_value: DOUBLE_MAX_BITS,
            max_value: DOUBLE_MIN_BITS,
            first_value: 0,
            last_value: 0,
            count: 0,
            sum_value: 0,
        }
    }

    /// Takes one more sample.
    pub fn update(&mut self, timestamp: i64, value: u64)
        ensures
            *final(self) == old(self).updated(timestamp, value),
    {
        if timestamp < self.ts_first {
            self.ts_first = timestamp;
            self.first_value = value;
        }
        if timestamp > self.ts_last {
            self.ts_last = timestamp;
            self.last_value = value;
        }
        if double_lt(value, self.min_value) {
            self.min_value = value;
        }
        if double_lt(self.max_value, value) {
            self.max_value = value;
        }
        self.count = self.count.wrapping_add(1);
        self.sum_value = add_doubles(self.sum_value, value);
    }

    /// Takes in the statistics of another run of samples.
    pub fn merge(&mut self, statistics: &Self)
        ensures
            *final(self) == old(self).merged(*statistics),
    {
        if statistics.ts_first < self.ts_first {
            self.ts_first = statistics.ts_first;
            self.first_value = statistics.first_value;
        }
        if statistics.ts_last > self.ts_last {
            self.ts_last = statistics.ts_last;
            self.last_value = statistics.last_value;
        }
        if double_lt(self.max_value, statistics.max_value) {
            self.max_value = statistics.max_value;
        }
        if double_lt(statistics.min_value, self.min_value) {
            self.min_value = statistics.min_value;
        }
        self.count = self.count.wrapping_add(statistics.count);
        self.sum_value = add_doubles(self.sum_value, statistics.sum_value);
    }

    /// Appends the bytes of the statistics to `buffer`.
    pub fn serialize(&self, buffer: &mut Vec<u8>)
        ensures
            final(buffer)@ == old(buffer)@ + self.serialized(),
    {
        let ghost start = buffer@;
        write_var_u32(self.count, buffer);
        let ghost part = var_u32_bytes(self.count);
        write_i64_be(self.ts_first, buffer);
        assert(buffer@ =~= start + (part + be_bytes_i64(self.ts_first)));
        let ghost part = part + be_bytes_i64(self.ts_first);
        write_i64_be(self.ts_last, buffer);
        assert(buffer@ =~= start + (part + be_bytes_i64(self.ts_last)));
        let ghost part = part + be_bytes_i64(self.ts_last);
        write_u64_be(self.min_value, buffer);
        assert(buffer@ =~= start + (part + be_bytes_u64(self.min_value)));
        let ghost part = part + be_bytes_u64(self.min_value);
        write_u64_be(self.max_value, buffer);
        assert(buffer@ =~= start + (part + be_bytes_u64(self.max_value)));
        let ghost part = part + be_bytes_u64(self.max_value);
        write_u64_be(self.first_value, buffer);
        assert(buffer@ =~= start + (part + be_bytes_u64(self.first_value)));
        let ghost part = part + be_bytes_u64(self.first_value);
        write_u64_be(self.last_value, buffer);
        assert(buffer@ =~= start + (part + be_bytes_u64(self.last_value)));
        let ghost part = part + be_bytes_u64(self.last_value);
        write_u64_be(self.sum_value, buffer);
        assert(buffer@ =~= start + (part + be_bytes_u64(self.sum_value)));
    }

    /// The size that is reckoned for the statistics when memory is
    /// estimated: the bytes of the count, 16 for the time range and 40 for
    /// the values and the sum.
    pub fn get_serialized_size(&self) -> (size: u32)
        ensures
            size == var_u32_bytes(self.count).len() + 16 + 40,
    {
        size_var_u32(self.count) as u32 + 16 + 40
    }
}

/// The statistics of a series, by the type of its values.
#[derive(Clone, Copy, Debug)]
pub enum Statistics {
    INT32(StatisticsStruct<i32, i64>),
    INT64(StatisticsStruct<i64, i64>),
    FLOAT(StatisticsStruct<u32, u64>),
    DOUBLE(StatisticsStruct<u64, u64>),
}

impl Statistics {
    /// The statistics of no values of a series of `data_type`.
    pub open spec fn initial(data_type: TSDataType) -> Statistics {
        match data_type {
            TSDataType::INT32 => Statistics::INT32(StatisticsStruct::<i32, i64>::initial()),
            TSDataType::INT64 => Statistics::INT64(StatisticsStruct::<i64, i64>::initial()),
            TSDataType::FLOAT => Statistics::FLOAT(StatisticsStruct::<u32, u64>::initial()),
            TSDataType::DOUBLE => Statistics::DOUBLE(StatisticsStruct::<u64, u64>::initial()),
        }
    }

    /// The type of the values that the statistics are of.
    pub open spec fn data_type(self) -> TSDataType {
        match self {
            Statistics::INT32(_) => TSDataType::INT32,
            Statistics::INT64(_) => TSDataType::INT64,
            Statistics::FLOAT(_) => TSDataType::FLOAT,
            Statistics::DOUBLE(_) => TSDataType::DOUBLE,
        }
    }

    /// The number of values, in wrapping 32-bit arithmetic.
    pub open spec fn spec_count(self) -> u32 {
        match self {
            Statistics::INT32(s) => s.count,
            Statistics::INT64(s) => s.count,
            Statistics::FLOAT(s) => s.count,
            Statistics::DOUBLE(s) => s.count,
        }
    }

    /// The statistics after one more sample whose value is of the series'
    /// type; a value of another type leaves them as they are.
    pub open spec fn updated(self, timestamp: i64, value: IoTDBValue) -> Statistics {
        match (self, value) {
            (Statistics::INT32(s), IoTDBValue::INT(v)) => Statistics::INT32(s.updated(timestamp, v)),
            (Statistics::INT64(s), IoTDBValue::LONG(v)) => Statistics::INT64(
                s.updated(timestamp, v),
            ),
            (Statistics::FLOAT(s), IoTDBValue::FLOAT(v)) => Statistics::FLOAT(
                s.updated(timestamp, v),
            ),
            (Statistics::DOUBLE(s), IoTDBValue::DOUBLE(v)) => Statistics::DOUBLE(
                s.updated(timestamp, v),
            ),
            _ => self,
        }
    }

    /// The statistics of two runs of samples of one type together;
    /// statistics of another type leave `self` as it is.
    pub open spec fn merged(self, other: Statistics) -> Statistics {
        match (self, other) {
            (Statistics::INT32(s), Statistics::INT32(o)) => Statistics::INT32(s.merged(o)),
            (Statistics::INT64(s), Statistics::INT64(o)) => Statistics::INT64(s.merged(o)),
            (Statistics::FLOAT(s), Statistics::FLOAT(o)) => Statistics::FLOAT(s.merged(o)),
            (Statistics::DOUBLE(s), Statistics::DOUBLE(o)) => Statistics::DOUBLE(s.merged(o)),
            _ => self,
        }
    }

    /// The statistics after the samples of `samples`, one after the other.
    pub open spec fn folded(self, samples: Seq<Sample>) -> Statistics
        decreases samples.len(),
    {
        if samples.len() == 0 {
            self
        } else {
            self.folded(samples.drop_last()).updated(samples.last().0, samples.last().1)
        }
    }

    /// The bytes of the statistics in a file.
    pub open spec fn serialized(self) -> Seq<u8> {
        match self {
            Statistics::INT32(s) => s.serialized(),
            Statistics::INT64(s) => s.serialized(),
            Statistics::FLOAT(s) => s.serialized(),
            Statistics::DOUBLE(s) => s.serialized(),
        }
    }

    /// The size that is reckoned for the statistics when memory is
    /// estimated: the bytes of the count, 16 for the time range, and for the
    /// values and the sum 24 with 32-bit integers and 40 with the other
    /// types.
    pub open spec fn serialized_size(self) -> int {
        var_u32_bytes(self.spec_count()).len() + 16 + if self.data_type() == TSDataType::INT32 {
            24int
        } else {
            40int
        }
    }

    /// The statistics of no values of a series of `data_type`.
    pub fn new(data_type: TSDataType) -> (statistics: Statistics)
        ensures
            statistics == Statistics::initial(data_type),
    {
        match data_type {
            TSDataType::INT32 => Statistics::INT32(StatisticsStruct::<i32, i64>::new()),
            TSDataType::INT64 => Statistics::INT64(StatisticsStruct::<i64, i64>::new()),
            TSDataType::FLOAT => Statistics::FLOAT(StatisticsStruct::<u32, u64>::new()),
            TSDataType::DOUBLE => Statistics::DOUBLE(StatisticsStruct::<u64, u64>::new()),
        }
    }

    /// The number of values, in wrapping 32-bit arithmetic.
    pub fn count(&self) -> (count: u32)
        ensures
            count == self.spec_count(),
    {
        match self {
            Statistics::INT32(s) => s.count,
            Statistics::INT64(s) => s.count,
            Statistics::FLOAT(s) => s.count,
            Statistics::DOUBLE(s) => s.count,
        }
    }

    /// The size that is reckoned for the statistics when memory is
    /// estimated.
    pub fn get_serialized_size(&self) -> (size: u32)
        ensures
            size == self.serialized_size(),
    {
        match self {
            Statistics::INT32(s) => s.get_serialized_size(),
            Statistics::INT64(s) => s.get_serialized_size(),
            Statistics::FLOAT(s) => s.get_serialized_size(),
            Statistics::DOUBLE(s) => s.get_serialized_size(),
        }
    }

    /// Takes one more sample, whose value is of the series' type.
    pub fn update(&mut self, timestamp: i64, value: &IoTDBValue)
        requires
            value.spec_data_type() == old(self).data_type(),
        ensures
            *final(self) == old(self).updated(timestamp, *value),
    {
        match self {
            Statistics::INT32(s) => match value {
                IoTDBValue::INT(v) => s.update(timestamp, *v),
                _ => {},
            },
            Statistics::INT64(s) => match value {
                IoTDBValue::LONG(v) => s.update(timestamp, *v),
                _ => {},
            },
            Statistics::FLOAT(s) => match value {
                IoTDBValue::FLOAT(v) => s.update(timestamp, *v),
                _ => {},
            },
            Statistics::DOUBLE(s) => match value {
                IoTDBValue::DOUBLE(v) => s.update(timestamp, *v),
                _ => {},
            },
        }
    }

    /// Takes in the statistics of another run of samples of the same type.
    pub fn merge(&mut self, other: &Statistics)
        requires
            other.data_type() == old(self).data_type(),
        ensures
            *final(self) == old(self).merged(*other),
    {
        match self {
            Statistics::INT32(s) => match other {
                Statistics::INT32(o) => s.merge(o),
                _ => {},
            },
            Statistics::INT64(s) => match other {
                Statistics::INT64(o) => s.merge(o),
                _ => {},
            },
            Statistics::FLOAT(s) => match other {
                Statistics::FLOAT(o) => s.merge(o),
                _ => {},
            },
            Statistics::DOUBLE(s) => match other {
                Statistics::DOUBLE(o) => s.merge(o),
                _ => {},
            },
        }
    }

    /// Appends the bytes of the statistics to `buffer`.
    pub fn serialize(&self, buffer: &mut Vec<u8>)
        ensures
            final(buffer)@ == old(buffer)@ + self.serialized(),
    {
        match self {
            Statistics::INT32(s) => s.serialize(buffer),
            Statistics::INT64(s) => s.serialize(buffer),
            Statistics::FLOAT(s) => s.serialize(buffer),
            Statistics::DOUBLE(s) => s.serialize(buffer),
        }
    }
}

/// Whether every sample of `samples` has a value of `data_type`.
pub open spec fn all_of_type(samples: Seq<Sample>, data_type: TSDataType) -> bool {
    forall|i: int| 0 <= i < samples.len() ==> (#[trigger] samples[i]).1.spec_data_type() == data_type
}

/// Whether `data_type` is one of the two integer types.
pub open spec fn is_integer_type(data_type: TSDataType) -> bool {
    data_type == TSDataType::INT32 || data_type == TSDataType::INT64
}

/// Updating keeps the type of the statistics.
pub proof fn lemma_folded_type(statistics: Statistics, samples: Seq<Sample>)
    ensures
        statistics.folded(samples).data_type() == statistics.data_type(),
    decreases samples.len(),
{
    if samples.len() > 0 {
        lemma_folded_type(statistics, samples.drop_last());
    }
}

/// Taking the samples of two runs one run after the other is taking the
/// samples of the runs joined.
pub proof fn lemma_folded_concat(statistics: Statistics, a: Seq<Sample>, b: Seq<Sample>)
    ensures
        statistics.folded(a + b) == statistics.folded(a).folded(b),
    decreases b.len(),
{
    if b.len() == 0 {
        assert(a + b =~= a);
    } else {
        assert((a + b).drop_last() =~= a + b.drop_last());
        assert((a + b).last() == b.last());
        lemma_folded_concat(statistics, a, b.drop_last());
    }
}

/// For a series of integers, merging in the statistics of no values
/// changes nothing.
pub proof fn lemma_merge_initial(statistics: Statistics)
    requires
        is_integer_type(statistics.data_type()),
    ensures
        statistics.merged(Statistics::initial(statistics.data_type())) == statistics,
{
}

/// For a series of integers, taking a sample after a merge is merging
/// with statistics that took the sample.
pub proof fn lemma_update_after_merge(
    statistics: Statistics,
    other: Statistics,
    timestamp: i64,
    value: IoTDBValue,
)
    requires
        is_integer_type(statistics.data_type()),
        other.data_type() == statistics.data_type(),
        value.spec_data_type() == statistics.data_type(),
    ensures
        statistics.merged(other).updated(timestamp, value) == statistics.merged(
            other.updated(timestamp, value),
        ),
{
}

/// For a series of integers, merging with the statistics of a run of
/// samples gives what taking the samples one by one gives: the statistics of
/// a chunk, merged from those of its pages, are those of its samples.
pub proof fn lemma_merge_is_fold(statistics: Statistics, samples: Seq<Sample>)
    requires
        is_integer_type(statistics.data_type()),
        all_of_type(samples, statistics.data_type()),
    ensures
        statistics.merged(Statistics::initial(statistics.data_type()).folded(samples))
            == statistics.folded(samples),
    decreases samples.len(),
{
    let fresh = Statistics::initial(statistics.data_type());
    if samples.len() == 0 {
        lemma_merge_initial(statistics);
    } else {
        let rest = samples.drop_last();
        let last = samples.last();
        assert(all_of_type(rest, statistics.data_type())) by {
            assert forall|i: int| 0 <= i < rest.len() implies (#[trigger] rest[i]).1.spec_data_type()
                == statistics.data_type() by {
                assert(rest[i] == samples[i]);
            }
        }
        lemma_merge_is_fold(statistics, rest);
        lemma_folded_type(fresh, rest);
        lemma_update_after_merge(statistics, fresh.folded(rest), last.0, last.1);
    }
}

/// Merging is associative on the time range, the least and largest value
/// and, for a series of integers, on the count and the sum too: the order
/// in which the statistics of runs are merged does not matter for them.
pub proof fn lemma_merge_associative(a: Statistics, b: Statistics, c: Statistics)
    requires
        is_integer_type(a.data_type()),
        b.data_type() == a.data_type(),
        c.data_type() == a.data_type(),
    ensures
        a.merged(b).merged(c) == a.merged(b.merged(c)),
{
}

/// The statistics of integers and of double-precision numbers take in a
/// file the size that is reckoned for them; those of single-precision
/// numbers take 16 bytes less, their four values being four bytes each.
pub proof fn lemma_serialized_len(statistics: Statistics)
    ensures
        statistics.serialized().len() == if statistics.data_type() == TSDataType::FLOAT {
            statistics.serialized_size() - 16
        } else {
            statistics.serialized_size()
        },
{
    match statistics {
        Statistics::INT32(s) => {
            lemma_be_bytes_len(i32_bits(s.min_value), i64_bits(s.ts_first));
            lemma_be_bytes_len(i32_bits(s.max_value), i64_bits(s.ts_last));
            lemma_be_bytes_len(i32_bits(s.first_value), i64_bits(s.sum_value));
            lemma_be_bytes_len(i32_bits(s.last_value), 0);
        },
        Statistics::INT64(s) => {
            lemma_be_bytes_len(0, i64_bits(s.ts_first));
            lemma_be_bytes_len(0, i64_bits(s.ts_last));
            lemma_be_bytes_len(0, i64_bits(s.min_value));
            lemma_be_bytes_len(0, i64_bits(s.max_value));
            lemma_be_bytes_len(0, i64_bits(s.first_value));
            lemma_be_bytes_len(0, i64_bits(s.last_value));
            lemma_be_bytes_len(0, i64_bits(s.sum_value));
        },
        Statistics::FLOAT(s) => {
            lemma_be_bytes_len(s.min_value, i64_bits(s.ts_first));
            lemma_be_bytes_len(s.max_value, i64_bits(s.ts_last));
            lemma_be_bytes_len(s.first_value, s.sum_value);
            lemma_be_bytes_len(s.last_value, 0);
        },
        Statistics::DOUBLE(s) => {
            lemma_be_bytes_len(0, i64_bits(s.ts_first));
            lemma_be_bytes_len(0, i64_bits(s.ts_last));
            lemma_be_bytes_len(0, s.min_value);
            lemma_be_bytes_len(0, s.max_value);
            lemma_be_bytes_len(0, s.first_value);
            lemma_be_bytes_len(0, s.last_value);
            lemma_be_bytes_len(0, s.sum_value);
        },
    }
}

} // verus!
