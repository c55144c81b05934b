//! The writer of one series: a page that gathers samples, and the chunk
//! that the sealed pages make up.
use crate::compression::CompressionType;
use crate::encoding::time_encoder::{LongDeltaState, TimeEncoder};
use crate::encoding::{encoder_for, Encoder, EncoderState, TSEncoding};
use crate::errors::TsFileError;
use crate::float_bits::{
    divide_singles, multiply_singles, single_from_count, single_of_count, single_product,
    single_quotient, single_truncated, truncate_single,
};
use crate::statistics::{
    all_of_type, is_integer_type, lemma_folded_concat, lemma_folded_type, lemma_merge_is_fold,
    Sample, Statistics,
};
use crate::tsfile_io_writer::{IoState, TsFileIoWriter};
use crate::utils::{size_var_i32, size_var_u32, str_bytes, text_bytes, var_i32_bytes};
use crate::utils::{be_bytes_u64, write_u64_be};
use crate::{
    valid_measurement_id, var_str, write_str, CHUNK_HEADER, MAX_NAME_LENGTH,
    ONLY_ONE_PAGE_CHUNK_HEADER,
};
use vstd::slice::slice_to_vec;
use crate::utils::{add_sizes, low_u32, low_u32_of, saturated, var_u32_bytes, write_bytes, write_var_u32};
use crate::{IoTDBValue, TSDataType};
use vstd::prelude::*;

verus! {

/// The largest number of points that a page is left with.
pub const MAX_NUMBER_OF_POINTS_IN_PAGE: u32 = 1048576;

/// The number of points in a page after which its size is first looked at.
pub const VALUE_COUNT_IN_ONE_PAGE_FOR_NEXT_CHECK: u32 = 7989;

/// The estimated size above which a page is sealed.
pub const PAGE_SIZE_THRESHOLD: u32 = 65536;

/// The number of points after which the size of a page is looked at when
/// the page before it was sealed for its size.
pub const MINIMUM_RECORD_COUNT_FOR_CHECK: u32 = 1500;

/// The state of the timestamp encoder after the samples of a page.
pub open spec fn time_state(samples: Seq<Sample>) -> LongDeltaState
    decreases samples.len(),
{
    if samples.len() == 0 {
        LongDeltaState::empty()
    } else {
        time_state(samples.drop_last()).written(samples.last().0)
    }
}

/// The state of a value encoder that started as `fresh` after the samples
/// of a page.
pub open spec fn value_state(fresh: EncoderState, samples: Seq<Sample>) -> EncoderState
    decreases samples.len(),
{
    if samples.len() == 0 {
        fresh
    } else {
        value_state(fresh, samples.drop_last()).written(samples.last().1)
    }
}

/// What a page is made of: the type of its values, the state of its value
/// encoder when it holds nothing, and the samples taken since it was last
/// emptied.
pub struct PageState {
    pub data_type: TSDataType,
    pub fresh: EncoderState,
    pub samples: Seq<Sample>,
}

impl PageState {
    /// The statistics of the page.
    pub open spec fn statistics(self) -> Statistics {
        Statistics::initial(self.data_type).folded(self.samples)
    }

    /// The encoded timestamps of the page.
    pub open spec fn time_bytes(self) -> Seq<u8> {
        time_state(self.samples).serialized()
    }

    /// The encoded values of the page.
    pub open spec fn value_bytes(self) -> Seq<u8> {
        value_state(self.fresh, self.samples).serialized()
    }

    /// The payload of the page: the length of the encoded timestamps as a
    /// variable-length integer, the encoded timestamps, the encoded values.
    pub open spec fn payload(self) -> Seq<u8> {
        var_u32_bytes(low_u32_of(self.time_bytes().len() as int)) + self.time_bytes()
            + self.value_bytes()
    }

    /// The estimate of the memory that the page may come to take: what its
    /// two encoders hold and what each reckons it may still add.
    pub open spec fn max_mem_size(self) -> u64 {
        saturated(
            time_state(self.samples).buffer.len() + value_state(self.fresh, self.samples).size() + (
            24 + 8 * time_state(self.samples).values.len()) + value_state(
                self.fresh,
                self.samples,
            ).max_byte_size(),
        )
    }
}

/// A fold over samples keeps an encoder in a state that it can be in, and
/// keeps its kind.
pub proof fn lemma_value_state(fresh: EncoderState, samples: Seq<Sample>)
    requires
        fresh.wf(),
    ensures
        value_state(fresh, samples).wf(),
        value_state(fresh, samples).cleared() == fresh.cleared(),
        value_state(fresh, samples).data_type() == fresh.data_type(),
    decreases samples.len(),
{
    if samples.len() > 0 {
        lemma_value_state(fresh, samples.drop_last());
    }
}

/// An encoder that holds nothing is in a state that it can be in, holds
/// nothing when emptied again, and takes the values that it took before.
pub proof fn lemma_cleared(state: EncoderState)
    ensures
        state.cleared().wf(),
        state.cleared().cleared() == state.cleared(),
        state.cleared().data_type() == state.data_type(),
{
}

/// A fold over timestamps keeps the encoder in a state that it can be in.
pub proof fn lemma_time_state(samples: Seq<Sample>)
    ensures
        time_state(samples).wf(),
    decreases samples.len(),
{
    if samples.len() > 0 {
        lemma_time_state(samples.drop_last());
    }
}

/// The writer of one page.
pub struct PageWriter {
    time_encoder: TimeEncoder,
    value_encoder: Encoder,
    data_type: TSDataType,
    statistics: Statistics,
    point_number: u32,
    buffer: Vec<u8>,
    samples: Ghost<Seq<Sample>>,
}

impl View for PageWriter {
    type V = PageState;

    closed spec fn view(&self) -> PageState {
        PageState {
            data_type: self.data_type,
            fresh: self.value_encoder@.cleared(),
            samples: self.samples@,
        }
    }
}

impl PageWriter {
    /// Whether the writer holds what its samples make it hold.
    pub closed spec fn wf(&self) -> bool {
        &&& self.time_encoder@ == time_state(self.samples@)
        &&& self.value_encoder@ == value_state(self.value_encoder@.cleared(), self.samples@)
        &&& self.value_encoder@.data_type() == self.data_type
        &&& self.statistics == Statistics::initial(self.data_type).folded(self.samples@)
        &&& self.point_number == self.samples@.len()
        &&& all_of_type(self.samples@, self.data_type)
    }

    /// Whether the value encoder is one for the page's type.
    pub closed spec fn typed(&self) -> bool {
        self.value_encoder@.data_type() == self.data_type
    }

    /// The number of samples in the page.
    pub closed spec fn spec_point_number(&self) -> u32 {
        self.point_number
    }

    /// The bytes that were last prepared.
    pub closed spec fn spec_buffer(&self) -> Seq<u8> {
        self.buffer@
    }

    /// The statistics that the writer holds.
    pub closed spec fn spec_statistics(&self) -> Statistics {
        self.statistics
    }

    /// What being well-formed says of the count and the statistics.
    pub proof fn lemma_wf(&self)
        requires
            self.wf(),
        ensures
            self.spec_point_number() == self@.samples.len(),
            self.spec_statistics() == self@.statistics(),
            all_of_type(self@.samples, self@.data_type),
            self@.fresh.wf(),
            self@.fresh.data_type() == self@.data_type,
            self@.fresh.cleared() == self@.fresh,
    {
        lemma_cleared(self.value_encoder@);
        lemma_value_state(self.value_encoder@.cleared(), self.samples@);
    }

    /// An empty page for a series of `data_type` encoded by `encoding`;
    /// fails where no encoder exists for the two.
    pub fn new(data_type: TSDataType, encoding: TSEncoding) -> (made: Result<PageWriter, TsFileError>)
        ensures
            match made {
                Ok(page) => page.wf() && encoder_for(data_type, encoding) == Some(page@.fresh)
                    && page@.data_type == data_type && page@.samples == Seq::<Sample>::empty(),
                Err(e) => encoder_for(data_type, encoding) is None && e == TsFileError::Encoding,
            },
    {
        match Encoder::new(data_type, encoding) {
            Ok(value_encoder) => {
                proof {
                    crate::encoding::lemma_encoder_for_type(data_type, encoding);
                    lemma_cleared(value_encoder@);
                }
                Ok(
                    PageWriter {
                        time_encoder: TimeEncoder::new(),
                        value_encoder,
                        data_type,
                        statistics: Statistics::new(data_type),
                        point_number: 0,
                        buffer: Vec::new(),
                        samples: Ghost(Seq::empty()),
                    },
                )
            },
            Err(e) => Err(e),
        }
    }

    /// Empties the page.
    pub fn reset(&mut self)
        requires
            old(self).typed(),
        ensures
            final(self).wf(),
            final(self)@ == (PageState { samples: Seq::empty(), ..old(self)@ }),
            final(self).spec_buffer() == old(self).spec_buffer(),
    {
        self.statistics = Statistics::new(self.data_type);
        self.time_encoder.reset();
        self.value_encoder.reset();
        self.point_number = 0;
        self.samples = Ghost(Seq::empty());
        proof {
            lemma_cleared(old(self).value_encoder@);
            assert(self.time_encoder@ == time_state(self.samples@));
            assert(self.value_encoder@ == value_state(self.value_encoder@.cleared(), self.samples@));
            assert(self.value_encoder@.data_type() == self.data_type);
            assert(self.point_number == self.samples@.len());
            assert(all_of_type(self.samples@, self.data_type));
        }
    }

    /// Takes one sample whose value is of the page's type; a value of
    /// another type is refused and changes nothing.
    pub fn write(&mut self, timestamp: i64, value: &IoTDBValue) -> (done: Result<u32, TsFileError>)
        requires
            old(self).wf(),
            old(self).spec_point_number() < u32::MAX,
        ensures
            final(self).wf(),
            final(self).spec_buffer() == old(self).spec_buffer(),
            value.spec_data_type() == old(self)@.data_type ==> done == Ok::<u32, TsFileError>(1)
                && final(self)@ == (PageState {
                samples: old(self)@.samples.push((timestamp, *value)),
                ..old(self)@
            }),
            value.spec_data_type() != old(self)@.data_type ==> done == Err::<u32, TsFileError>(
                TsFileError::WrongTypeForSeries,
            ) && final(self)@ == old(self)@,
    {
        if value.data_type() != self.data_type {
            return Err(TsFileError::WrongTypeForSeries);
        }
        proof {
            lemma_time_state(self.samples@);
            lemma_cleared(self.value_encoder@);
            lemma_value_state(self.value_encoder@.cleared(), self.samples@);
            lemma_folded_type(Statistics::initial(self.data_type), self.samples@);
        }
        self.time_encoder.encode(timestamp);
        let written = self.value_encoder.write(value);
        self.statistics.update(timestamp, value);
        self.point_number = self.point_number + 1;
        proof {
            let before = self.samples@;
            let after = before.push((timestamp, *value));
            assert(after.drop_last() =~= before);
            self.samples = Ghost(after);
            lemma_cleared(old(self).value_encoder@);
            lemma_value_state(old(self).value_encoder@.cleared(), after);
            assert(all_of_type(after, self.data_type)) by {
                assert forall|i: int| 0 <= i < after.len() implies (
                #[trigger] after[i]).1.spec_data_type() == self.data_type by {
                    if i < before.len() {
                        assert(after[i] == before[i]);
                    }
                }
            }
        }
        Ok(1)
    }

    /// The estimate of the memory that the page may come to take.
    pub fn estimate_max_mem_size(&self) -> (size: u64)
        requires
            self.wf(),
        ensures
            size == self@.max_mem_size(),
    {
        proof {
            lemma_time_state(self.samples@);
            lemma_cleared(self.value_encoder@);
            lemma_value_state(self.value_encoder@.cleared(), self.samples@);
        }
        let time_encoder_size = self.time_encoder.size() as u64;
        let value_encoder_size = self.value_encoder.size() as u64;
        let time_encoder_max_size = self.time_encoder.get_max_byte_size() as u64;
        let value_encoder_max_size = self.value_encoder.get_max_byte_size();
        add_sizes(
            add_sizes(add_sizes(time_encoder_size, value_encoder_size), time_encoder_max_size),
            value_encoder_max_size,
        )
    }

    /// Closes the blocks of both encoders and puts the payload of the page
    /// into the writer's buffer. The page is to be emptied before it takes a
    /// sample again.
    pub fn prepare_buffer(&mut self)
        requires
            old(self).wf(),
        ensures
            final(self).typed(),
            final(self)@ == old(self)@,
            final(self).spec_buffer() == old(self)@.payload(),
            final(self).spec_statistics() == old(self).spec_statistics(),
            final(self).spec_point_number() == old(self).spec_point_number(),
    {
        proof {
            lemma_time_state(self.samples@);
            lemma_cleared(self.value_encoder@);
            lemma_value_state(self.value_encoder@.cleared(), self.samples@);
        }
        self.buffer.clear();
        let mut time_buffer: Vec<u8> = Vec::new();
        self.time_encoder.serialize(&mut time_buffer);
        write_var_u32(low_u32(time_buffer.len()), &mut self.buffer);
        write_bytes(time_buffer.as_slice(), &mut self.buffer);
        self.value_encoder.serialize(&mut self.buffer);
        proof {
            assert(time_buffer@ =~= old(self)@.time_bytes());
            assert(self.buffer@ =~= old(self)@.payload());
        }
    }

} // impl PageWriter

/// What a chunk writer is made of: what its series declares, the samples
/// of the pages sealed into the chunk, the samples of the open page if one
/// has been opened, and the number of points at which the size of the open
/// page is looked at next.
pub struct ChunkState {
    pub measurement_id: Seq<u8>,
    pub data_type: TSDataType,
    pub compression_type: CompressionType,
    pub encoding: TSEncoding,
    pub mask: u8,
    pub pages: Seq<Seq<Sample>>,
    pub page: Option<Seq<Sample>>,
    pub next_check: u32,
}

/// The number of points at which a page of estimated size `size` that holds
/// `points` points is looked at next: the threshold divided by the size,
/// times the points, in single-precision arithmetic, cut to a whole number.
pub open spec fn next_check_after(size: u32, points: u32) -> u32 {
    single_truncated(
        single_product(
            single_quotient(single_of_count(PAGE_SIZE_THRESHOLD), single_of_count(size)),
            single_of_count(points),
        ),
    )
}

/// A page of a series of `data_type` encoded by `encoding` with the samples
/// `samples`.
pub open spec fn page_of(data_type: TSDataType, encoding: TSEncoding, samples: Seq<Sample>) -> PageState {
    PageState { data_type, fresh: encoder_for(data_type, encoding).unwrap(), samples }
}

/// The bytes of one page in a chunk: the size of the payload twice, as it
/// is and as compressed, which is the same; the statistics of the page where
/// there are any to store; the payload.
pub open spec fn frame_bytes(payload: Seq<u8>, statistics: Seq<u8>) -> Seq<u8> {
    var_u32_bytes(low_u32_of(payload.len() as int)) + var_u32_bytes(
        low_u32_of(payload.len() as int),
    ) + statistics + payload
}

/// The bytes of the page with the samples `samples` in a chunk; its
/// statistics are stored where the chunk has more pages than one.
pub open spec fn page_frame(
    data_type: TSDataType,
    encoding: TSEncoding,
    samples: Seq<Sample>,
    with_statistics: bool,
) -> Seq<u8> {
    let page = page_of(data_type, encoding, samples);
    frame_bytes(
        page.payload(),
        if with_statistics {
            page.statistics().serialized()
        } else {
            Seq::empty()
        },
    )
}

/// The bytes of `pages`, each with its statistics.
pub open spec fn frames(data_type: TSDataType, encoding: TSEncoding, pages: Seq<Seq<Sample>>) -> Seq<u8>
    decreases pages.len(),
{
    if pages.len() == 0 {
        Seq::empty()
    } else {
        frames(data_type, encoding, pages.drop_last()) + page_frame(
            data_type,
            encoding,
            pages.last(),
            true,
        )
    }
}

/// The statistics of `pages` merged in order.
pub open spec fn merged_statistics(
    data_type: TSDataType,
    encoding: TSEncoding,
    pages: Seq<Seq<Sample>>,
) -> Statistics
    decreases pages.len(),
{
    if pages.len() == 0 {
        Statistics::initial(data_type)
    } else {
        merged_statistics(data_type, encoding, pages.drop_last()).merged(
            page_of(data_type, encoding, pages.last()).statistics(),
        )
    }
}

impl ChunkState {
    /// The state of a chunk writer that has taken nothing.
    pub open spec fn initial(
        measurement_id: Seq<u8>,
        data_type: TSDataType,
        compression_type: CompressionType,
        encoding: TSEncoding,
    ) -> ChunkState {
        ChunkState {
            measurement_id,
            data_type,
            compression_type,
            encoding,
            mask: 0,
            pages: Seq::empty(),
            page: None,
            next_check: VALUE_COUNT_IN_ONE_PAGE_FOR_NEXT_CHECK,
        }
    }

    /// Whether an encoder exists for the series.
    pub open spec fn supported(self) -> bool {
        encoder_for(self.data_type, self.encoding) is Some
    }

    /// A page of the series with the samples `samples`.
    pub open spec fn page_state(self, samples: Seq<Sample>) -> PageState {
        page_of(self.data_type, self.encoding, samples)
    }

    /// The bytes of the sealed pages: a single page without its
    /// statistics, several pages each with its own.
    pub open spec fn page_buffer(self) -> Seq<u8> {
        if self.pages.len() == 1 {
            page_frame(self.data_type, self.encoding, self.pages[0], false)
        } else {
            frames(self.data_type, self.encoding, self.pages)
        }
    }

    /// The statistics of the chunk: those of its sealed pages merged in
    /// order.
    pub open spec fn statistics(self) -> Statistics {
        merged_statistics(self.data_type, self.encoding, self.pages)
    }

    /// The state after the open page has been sealed into the chunk and an
    /// empty page opened.
    pub open spec fn with_page_sealed(self) -> ChunkState {
        ChunkState {
            pages: self.pages.push(self.page.unwrap()),
            page: Some(Seq::empty()),
            ..self
        }
    }

    /// The state after the open page, if it holds a sample, has been
    /// sealed.
    pub open spec fn sealed(self) -> ChunkState {
        match self.page {
            Some(samples) => if samples.len() > 0 {
                self.with_page_sealed()
            } else {
                self
            },
            None => self,
        }
    }

    /// The state after the size of the open page has been looked at: a page
    /// with more points than a page may have is sealed; a page that has
    /// reached the number of points for the next look is sealed if its
    /// estimated size is above the threshold, and else the number for the
    /// next look is set anew.
    pub open spec fn checked(self) -> ChunkState {
        match self.page {
            None => self,
            Some(samples) => {
                if samples.len() > MAX_NUMBER_OF_POINTS_IN_PAGE {
                    self.with_page_sealed()
                } else if samples.len() >= self.next_check {
                    let size = self.page_state(samples).max_mem_size();
                    if size > PAGE_SIZE_THRESHOLD {
                        ChunkState {
                            next_check: MINIMUM_RECORD_COUNT_FOR_CHECK,
                            ..self.with_page_sealed()
                        }
                    } else {
                        ChunkState {
                            next_check: next_check_after(size as u32, samples.len() as u32),
                            ..self
                        }
                    }
                } else {
                    self
                }
            },
        }
    }

    /// The number of sealed pages as the chunk header takes it: held at the
    /// largest 32-bit number.
    pub open spec fn page_count(self) -> u32 {
        if self.pages.len() > u32::MAX {
            u32::MAX
        } else {
            self.pages.len() as u32
        }
    }

    /// Whether the chunk has anything to write: its statistics count a
    /// value.
    pub open spec fn has_data(self) -> bool {
        self.statistics().spec_count() != 0
    }

    /// The bytes of the chunk in a file: its header and its pages.
    pub open spec fn chunk_bytes(self) -> Seq<u8> {
        chunk_header_bytes(
            self.measurement_id,
            low_u32_of(self.page_buffer().len() as int),
            self.data_type,
            self.compression_type,
            self.encoding,
            self.page_count(),
            0,
        ) + self.page_buffer()
    }

    /// The metadata of the chunk when its header is written at `offset`.
    pub open spec fn chunk_meta(self, offset: u64) -> ChunkMeta {
        ChunkMeta {
            measurement_id: self.measurement_id,
            data_type: self.data_type,
            mask: 0,
            offset_of_chunk_header: offset,
            statistics: self.statistics(),
        }
    }

    /// The state after the chunk has been written to a file: the open page
    /// is sealed, and the chunk starts again without pages.
    pub open spec fn flushed(self) -> ChunkState {
        ChunkState { pages: Seq::empty(), ..self.sealed() }
    }

    /// The samples of the open page; none where no page has been opened.
    pub open spec fn open_samples(self) -> Seq<Sample> {
        match self.page {
            Some(samples) => samples,
            None => Seq::empty(),
        }
    }

    /// The state after one sample has been written: it joins the open
    /// page, and the size of the page is looked at.
    pub open spec fn written(self, timestamp: i64, value: IoTDBValue) -> ChunkState {
        (ChunkState { page: Some(self.open_samples().push((timestamp, value))), ..self }).checked()
    }

    /// The size that the chunk is reckoned to take in a file: nothing where
    /// no page is sealed, else its header and its pages. The length of the
    /// name is reckoned as a signed variable-length integer.
    pub open spec fn serialized_size(self) -> u64 {
        if self.page_buffer().len() == 0 {
            0
        } else {
            saturated(
                (1 + var_i32_bytes(self.measurement_id.len() as i32).len()
                    + self.measurement_id.len() + var_u32_bytes(
                    low_u32_of(self.page_buffer().len() as int),
                ).len() + 3 + self.page_buffer().len()) as int,
            )
        }
    }

    /// The estimate of the memory that the series may come to take:
    /// nothing where no page has been opened, else the sealed pages, the
    /// estimate of the open page, 10 bytes for the two sizes of a page and
    /// the size reckoned for its statistics.
    pub open spec fn max_series_mem_size(self) -> u64 {
        match self.page {
            None => 0,
            Some(samples) => saturated(
                self.page_buffer().len() + self.page_state(samples).max_mem_size() + 10
                    + self.page_state(samples).statistics().serialized_size(),
            ),
        }
    }
}

/// Whether every sample of every page has a value of `data_type`.
pub open spec fn pages_of_type(pages: Seq<Seq<Sample>>, data_type: TSDataType) -> bool {
    forall|i: int| 0 <= i < pages.len() ==> all_of_type(#[trigger] pages[i], data_type)
}

/// The samples of pages, one page after the other.
pub open spec fn flattened(pages: Seq<Seq<Sample>>) -> Seq<Sample>
    decreases pages.len(),
{
    if pages.len() == 0 {
        Seq::empty()
    } else {
        flattened(pages.drop_last()) + pages.last()
    }
}

/// For a series of integers, the statistics of a chunk, merged from those
/// of its pages in order, are the statistics of its samples taken one by
/// one.
pub proof fn lemma_chunk_statistics(
    data_type: TSDataType,
    encoding: TSEncoding,
    pages: Seq<Seq<Sample>>,
)
    requires
        is_integer_type(data_type),
        pages_of_type(pages, data_type),
    ensures
        merged_statistics(data_type, encoding, pages) == Statistics::initial(data_type).folded(
            flattened(pages),
        ),
    decreases pages.len(),
{
    if pages.len() > 0 {
        let rest = pages.drop_last();
        let fresh = Statistics::initial(data_type);
        assert(pages_of_type(rest, data_type)) by {
            assert forall|i: int| 0 <= i < rest.len() implies all_of_type(
                #[trigger] rest[i],
                data_type,
            ) by {
                assert(rest[i] == pages[i]);
            }
        }
        lemma_chunk_statistics(data_type, encoding, rest);
        lemma_folded_type(fresh, flattened(rest));
        assert(all_of_type(pages.last(), data_type)) by {
            assert(pages.last() == pages[pages.len() - 1]);
        }
        lemma_merge_is_fold(fresh.folded(flattened(rest)), pages.last());
        lemma_folded_concat(fresh, flattened(rest), pages.last());
    }
}

/// The statistics of a chunk are of the type of its series.
pub proof fn lemma_merged_statistics_type(
    data_type: TSDataType,
    encoding: TSEncoding,
    pages: Seq<Seq<Sample>>,
)
    ensures
        merged_statistics(data_type, encoding, pages).data_type() == data_type,
    decreases pages.len(),
{
    if pages.len() > 0 {
        lemma_merged_statistics_type(data_type, encoding, pages.drop_last());
        lemma_folded_type(Statistics::initial(data_type), pages.last());
    }
}

/// Appends one page to the pages of a chunk: the size of its payload
/// twice, its statistics where there are any to store, its payload.
fn append_frame(page_buffer: &mut Vec<u8>, payload: &[u8], statistics: Option<&Statistics>) -> (header:
    usize)
    ensures
        final(page_buffer)@ == old(page_buffer)@ + frame_bytes(
            payload@,
            match statistics {
                Some(s) => s.serialized(),
                None => Seq::empty(),
            },
        ),
        header == 2 * var_u32_bytes(low_u32_of(payload@.len() as int)).len(),
{
    let size: u32 = low_u32(payload.len());
    let ghost start = page_buffer@;
    let first = write_var_u32(size, page_buffer);
    let second = write_var_u32(size, page_buffer);
    let ghost sizes = var_u32_bytes(size) + var_u32_bytes(size);
    assert(page_buffer@ =~= start + sizes);
    let ghost stored = match statistics {
        Some(s) => s.serialized(),
        None => Seq::empty(),
    };
    match statistics {
        Some(s) => {
            s.serialize(page_buffer);
        },
        None => {},
    }
    assert(page_buffer@ =~= start + (sizes + stored));
    write_bytes(payload, page_buffer);
    assert(page_buffer@ =~= start + frame_bytes(payload@, stored));
    proof {
        crate::utils::lemma_var_u32_len(size);
    }
    first as usize + second as usize
}

/// Puts `statistics` into the only page of a chunk, behind the `header`
/// bytes of its two sizes.
fn insert_statistics(page_buffer: &mut Vec<u8>, header: usize, statistics: &Statistics)
    requires
        header <= old(page_buffer)@.len(),
    ensures
        final(page_buffer)@ == old(page_buffer)@.subrange(0, header as int)
            + statistics.serialized() + old(page_buffer)@.subrange(
            header as int,
            old(page_buffer)@.len() as int,
        ),
{
    let temp = slice_to_vec(page_buffer.as_slice());
    page_buffer.clear();
    let header_bytes = vstd::slice::slice_subrange(temp.as_slice(), 0, header);
    write_bytes(header_bytes, page_buffer);
    statistics.serialize(page_buffer);
    let remainder_bytes = vstd::slice::slice_subrange(temp.as_slice(), header, temp.len());
    write_bytes(remainder_bytes, page_buffer);
    assert(page_buffer@ =~= old(page_buffer)@.subrange(0, header as int) + statistics.serialized()
        + old(page_buffer)@.subrange(header as int, old(page_buffer)@.len() as int));
}

/// A frame without statistics turns into the frame with them when they
/// are put in behind the two sizes.
proof fn lemma_insert_statistics(payload: Seq<u8>, statistics: Seq<u8>)
    ensures
        ({
            let plain = frame_bytes(payload, Seq::empty());
            let header = 2 * var_u32_bytes(low_u32_of(payload.len() as int)).len();
            header <= plain.len() && plain.subrange(0, header as int) + statistics + plain.subrange(
                header as int,
                plain.len() as int,
            ) == frame_bytes(payload, statistics)
        }),
{
    let plain = frame_bytes(payload, Seq::empty());
    let size = var_u32_bytes(low_u32_of(payload.len() as int));
    let header = 2 * size.len();
    assert(plain =~= size + size + payload);
    assert(plain.subrange(0, header as int) =~= size + size);
    assert(plain.subrange(header as int, plain.len() as int) =~= payload);
    assert(plain.subrange(0, header as int) + statistics + plain.subrange(
        header as int,
        plain.len() as int,
    ) =~= frame_bytes(payload, statistics));
}

/// The writer of the chunk of one series.
pub struct ChunkWriter {
    measurement_id: Vec<u8>,
    data_type: TSDataType,
    compression_type: CompressionType,
    encoding: TSEncoding,
    mask: u8,
    statistics: Statistics,
    current_page_writer: Option<PageWriter>,
    page_buffer: Vec<u8>,
    num_pages: u32,
    first_page_statistics: Option<Statistics>,
    value_count_in_one_page_for_next_check: u32,
    size_without_statistics: usize,
    pages: Ghost<Seq<Seq<Sample>>>,
}

impl View for ChunkWriter {
    type V = ChunkState;

    closed spec fn view(&self) -> ChunkState {
        ChunkState {
            measurement_id: self.measurement_id@,
            data_type: self.data_type,
            compression_type: self.compression_type,
            encoding: self.encoding,
            mask: self.mask,
            pages: self.pages@,
            page: match self.current_page_writer {
                Some(page) => Some(page@.samples),
                None => None,
            },
            next_check: self.value_count_in_one_page_for_next_check,
        }
    }
}

impl ChunkWriter {
    /// Whether the writer holds what its pages make it hold; the open page
    /// may hold one point more than a page is left with.
    pub closed spec fn inv(&self) -> bool {
        &&& self.measurement_id@.len() <= MAX_NAME_LENGTH
        &&& pages_of_type(self.pages@, self.data_type)
        &&& self.statistics == self@.statistics()
        &&& self.page_buffer@ == self@.page_buffer()
        &&& self.num_pages == if self.pages@.len() > u32::MAX {
            u32::MAX as int
        } else {
            self.pages@.len() as int
        }
        &&& self.first_page_statistics == if self.pages@.len() == 1 {
            Some(page_of(self.data_type, self.encoding, self.pages@[0]).statistics())
        } else {
            None
        }
        &&& self.pages@.len() == 1 ==> self.size_without_statistics == 2 * var_u32_bytes(
            low_u32_of(page_of(self.data_type, self.encoding, self.pages@[0]).payload().len() as int),
        ).len()
        &&& match self.current_page_writer {
            Some(page) => page.wf() && encoder_for(self.data_type, self.encoding) is Some && page@
                == page_of(self.data_type, self.encoding, page@.samples)
                && page.spec_point_number() <= MAX_NUMBER_OF_POINTS_IN_PAGE + 1,
            None => true,
        }
    }

    /// Whether the writer is as it is between calls: it holds what its
    /// pages make it hold, and the open page has no more points than a page
    /// is left with.
    pub closed spec fn wf(&self) -> bool {
        &&& self.inv()
        &&& match self.current_page_writer {
            Some(page) => page.spec_point_number() <= MAX_NUMBER_OF_POINTS_IN_PAGE,
            None => true,
        }
    }

    /// What being well-formed says of the state.
    pub proof fn lemma_wf(&self)
        requires
            self.wf(),
        ensures
            self@.measurement_id.len() <= MAX_NAME_LENGTH,
            pages_of_type(self@.pages, self@.data_type),
            self@.page is Some ==> self@.supported() && self@.page.unwrap().len()
                <= MAX_NUMBER_OF_POINTS_IN_PAGE && all_of_type(
                self@.page.unwrap(),
                self@.data_type,
            ),
    {
        match self.current_page_writer {
            Some(page) => {
                page.lemma_wf();
            },
            None => {},
        }
    }

    /// A writer for the series `measurement_id` that has taken nothing.
    pub fn new(
        measurement_id: &str,
        data_type: TSDataType,
        compression_type: CompressionType,
        encoding: TSEncoding,
    ) -> (writer: ChunkWriter)
        requires
            valid_measurement_id(text_bytes(measurement_id@)),
        ensures
            writer.wf(),
            writer@ == ChunkState::initial(
                text_bytes(measurement_id@),
                data_type,
                compression_type,
                encoding,
            ),
    {
        let writer = ChunkWriter {
            measurement_id: slice_to_vec(str_bytes(measurement_id)),
            data_type,
            compression_type,
            encoding,
            mask: 0,
            statistics: Statistics::new(data_type),
            current_page_writer: None,
            page_buffer: Vec::new(),
            num_pages: 0,
            first_page_statistics: None,
            value_count_in_one_page_for_next_check: VALUE_COUNT_IN_ONE_PAGE_FOR_NEXT_CHECK,
            size_without_statistics: 0,
            pages: Ghost(Seq::empty()),
        };
        proof {
            assert(writer.page_buffer@ =~= writer@.page_buffer());
        }
        writer
    }

    /// A writer for the series whose name has the bytes `measurement_id`
    /// that has taken nothing.
    pub fn new_from_bytes(
        measurement_id: &[u8],
        data_type: TSDataType,
        compression_type: CompressionType,
        encoding: TSEncoding,
    ) -> (writer: ChunkWriter)
        requires
            measurement_id@.len() <= MAX_NAME_LENGTH,
        ensures
            writer.wf(),
            writer@ == ChunkState::initial(measurement_id@, data_type, compression_type, encoding),
    {
        let writer = ChunkWriter {
            measurement_id: slice_to_vec(measurement_id),
            data_type,
            compression_type,
            encoding,
            mask: 0,
            statistics: Statistics::new(data_type),
            current_page_writer: None,
            page_buffer: Vec::new(),
            num_pages: 0,
            first_page_statistics: None,
            value_count_in_one_page_for_next_check: VALUE_COUNT_IN_ONE_PAGE_FOR_NEXT_CHECK,
            size_without_statistics: 0,
            pages: Ghost(Seq::empty()),
        };
        proof {
            assert(writer.page_buffer@ =~= writer@.page_buffer());
        }
        writer
    }

    /// The bytes of the name of the series.
    pub fn measurement_id(&self) -> (name: &[u8])
        ensures
            name@ == self@.measurement_id,
    {
        self.measurement_id.as_slice()
    }

    /// The statistics of the chunk.
    pub fn statistics(&self) -> (statistics: Statistics)
        requires
            self.wf(),
        ensures
            statistics == self@.statistics(),
    {
        self.statistics
    }

    /// Seals the open page into the chunk: its payload is framed and
    /// appended to the pages, its statistics are merged into those of the
    /// chunk, and the page is emptied. When the second page is sealed, the
    /// statistics of the first, which a single page goes without, are put
    /// in behind its sizes.
    #[verifier::rlimit(60)]
    fn write_page_to_buffer(&mut self)
        requires
            old(self).inv(),
            old(self)@.page is Some,
        ensures
            final(self).wf(),
            final(self)@ == old(self)@.with_page_sealed(),
    {
        let ghost sealed = self.pages@;
        let mut page_writer = self.current_page_writer.take().unwrap();
        let ghost samples = page_writer@.samples;
        let ghost page = page_of(self.data_type, self.encoding, samples);
        proof {
            page_writer.lemma_wf();
            lemma_merged_statistics_type(self.data_type, self.encoding, sealed);
            lemma_folded_type(Statistics::initial(self.data_type), samples);
            assert(page == page_writer@);
        }
        page_writer.prepare_buffer();
        if self.num_pages == 0 {
            self.size_without_statistics = append_frame(
                &mut self.page_buffer,
                page_writer.buffer.as_slice(),
                None,
            );
            self.first_page_statistics = Some(page_writer.statistics);
            proof {
                assert(sealed =~= Seq::empty());
                assert(self.page_buffer@ =~= page_frame(
                    self.data_type,
                    self.encoding,
                    samples,
                    false,
                ));
            }
        } else if self.num_pages == 1 {
            let ghost first = page_of(self.data_type, self.encoding, sealed[0]);
            proof {
                lemma_insert_statistics(first.payload(), first.statistics().serialized());
                assert(sealed.drop_last() =~= Seq::<Seq<Sample>>::empty());
                assert(frames(self.data_type, self.encoding, sealed) =~= page_frame(
                    self.data_type,
                    self.encoding,
                    sealed[0],
                    true,
                )) by {
                    assert(frames(self.data_type, self.encoding, sealed.drop_last())
                        =~= Seq::<u8>::empty());
                    assert(sealed.last() == sealed[0]);
                }
            }
            match &self.first_page_statistics {
                Some(statistics) => {
                    insert_statistics(
                        &mut self.page_buffer,
                        self.size_without_statistics,
                        statistics,
                    );
                },
                None => {},
            }
            append_frame(
                &mut self.page_buffer,
                page_writer.buffer.as_slice(),
                Some(&page_writer.statistics),
            );
            self.first_page_statistics = None;
        } else {
            append_frame(
                &mut self.page_buffer,
                page_writer.buffer.as_slice(),
                Some(&page_writer.statistics),
            );
        }
        if self.num_pages < u32::MAX {
            self.num_pages = self.num_pages + 1;
        }
        self.statistics.merge(&page_writer.statistics);
        page_writer.reset();
        self.current_page_writer = Some(page_writer);
        proof {
            let after = sealed.push(samples);
            self.pages = Ghost(after);
            assert(after.drop_last() =~= sealed);
            assert(after.last() == samples);
            if sealed.len() == 0 {
                assert(after[0] == samples);
            }
            if sealed.len() == 1 {
                assert(after[0] == sealed[0]);
            }
            assert(pages_of_type(after, self.data_type)) by {
                assert forall|i: int| 0 <= i < after.len() implies all_of_type(
                    #[trigger] after[i],
                    self.data_type,
                ) by {
                    if i < sealed.len() {
                        assert(after[i] == sealed[i]);
                    }
                }
            }
        }
    }

    /// Looks at the size of the open page and seals it where it has grown
    /// enough.
    fn check_page_size_and_may_open_new_page(&mut self)
        requires
            old(self).inv(),
        ensures
            final(self).wf(),
            final(self)@ == old(self)@.checked(),
    {
        match &self.current_page_writer {
            None => {},
            Some(page_writer) => {
                proof {
                    page_writer.lemma_wf();
                }
                let point_number = page_writer.point_number;
                if point_number > MAX_NUMBER_OF_POINTS_IN_PAGE {
                    self.write_page_to_buffer();
                } else if point_number >= self.value_count_in_one_page_for_next_check {
                    let current_page_size = page_writer.estimate_max_mem_size();
                    if current_page_size > PAGE_SIZE_THRESHOLD as u64 {
                        self.write_page_to_buffer();
                        self.value_count_in_one_page_for_next_check =
                            MINIMUM_RECORD_COUNT_FOR_CHECK;
                    } else {
                        let ratio = divide_singles(
                            single_from_count(PAGE_SIZE_THRESHOLD),
                            single_from_count(current_page_size as u32),
                        );
                        self.value_count_in_one_page_for_next_check = truncate_single(
                            multiply_singles(ratio, single_from_count(point_number)),
                        );
                    }
                }
            },
        }
    }

    /// Takes one sample. It is refused, and nothing changes, where no
    /// encoder exists for the series, or else where the value is not of the
    /// type of the series.
    pub fn write(&mut self, timestamp: i64, value: IoTDBValue) -> (done: Result<u32, TsFileError>)
        requires
            old(self).wf(),
        ensures
            final(self).wf(),
            match done {
                Ok(records) => records == 1 && old(self)@.supported() && value.spec_data_type()
                    == old(self)@.data_type && final(self)@ == old(self)@.written(timestamp, value),
                Err(e) => final(self)@ == old(self)@ && if !old(self)@.supported() {
                    e == TsFileError::Encoding
                } else {
                    value.spec_data_type() != old(self)@.data_type && e
                        == TsFileError::WrongTypeForSeries
                },
            },
    {
        if value.data_type() != self.data_type {
            match Encoder::new(self.data_type, self.encoding) {
                Ok(_) => {
                    return Err(TsFileError::WrongTypeForSeries);
                },
                Err(e) => {
                    return Err(e);
                },
            }
        }
        if self.current_page_writer.is_none() {
            match PageWriter::new(self.data_type, self.encoding) {
                Ok(page_writer) => {
                    self.current_page_writer = Some(page_writer);
                },
                Err(e) => {
                    return Err(e);
                },
            }
        }
        let mut page_writer = self.current_page_writer.take().unwrap();
        proof {
            page_writer.lemma_wf();
        }
        let written = page_writer.write(timestamp, &value);
        self.current_page_writer = Some(page_writer);
        self.check_page_size_and_may_open_new_page();
        written
    }

    /// Seals the open page if it holds a sample.
    pub fn seal_current_page(&mut self)
        requires
            old(self).wf(),
        ensures
            final(self).wf(),
            final(self)@ == old(self)@.sealed(),
    {
        let pending = match &self.current_page_writer {
            None => false,
            Some(page_writer) => {
                proof {
                    page_writer.lemma_wf();
                }
                page_writer.point_number > 0
            },
        };
        if pending {
            self.write_page_to_buffer();
        }
    }

    /// The size that the chunk is reckoned to take in a file.
    pub fn get_serialized_chunk_size(&self) -> (size: u64)
        requires
            self.wf(),
        ensures
            size == self@.serialized_size(),
    {
        if self.page_buffer.len() == 0 {
            0
        } else {
            let measurement_length = self.measurement_id.len();
            let header: u64 = 1 + size_var_i32(measurement_length as i32) as u64
                + measurement_length as u64 + size_var_u32(low_u32(self.page_buffer.len())) as u64
                + 3;
            add_sizes(header, self.page_buffer.len() as u64)
        }
    }

    /// The estimate of the memory that the series may come to take.
    pub fn estimate_max_series_mem_size(&self) -> (size: u64)
        requires
            self.wf(),
        ensures
            size == self@.max_series_mem_size(),
    {
        match &self.current_page_writer {
            Some(page_writer) => {
                proof {
                    page_writer.lemma_wf();
                }
                let page_size = page_writer.estimate_max_mem_size();
                let header_size: u64 = 10 + page_writer.statistics.get_serialized_size() as u64;
                add_sizes(add_sizes(self.page_buffer.len() as u64, page_size), header_size)
            },
            None => 0,
        }
    }

    /// Writes the chunk to a file and starts it again: the open page is
    /// sealed; where the chunk counts a value, its header and its pages are
    /// written and its metadata joins those of the open chunk group; the
    /// chunk is left without pages.
    pub fn write_to_file_writer(&mut self, file_writer: &mut TsFileIoWriter)
        requires
            old(self).wf(),
            old(file_writer).wf(),
        ensures
            final(self).wf(),
            final(file_writer).wf(),
            final(file_writer).config == old(file_writer).config,
            final(self)@ == old(self)@.flushed(),
            final(file_writer)@ == io_with_chunk(old(file_writer)@, old(self)@.sealed()),
    {
        self.seal_current_page();
        let ghost sealed = self@;
        if self.statistics.count() != 0 {
            file_writer.start_flush_chunk(
                self.measurement_id.as_slice(),
                self.compression_type,
                self.data_type,
                self.encoding,
                self.statistics,
                low_u32(self.page_buffer.len()),
                self.num_pages,
                0,
            );
            file_writer.write_chunk_data(self.page_buffer.as_slice());
            file_writer.end_current_chunk();
            proof {
                lemma_chunk_written(old(file_writer)@.out, sealed, file_writer@.out);
            }
        }
        self.page_buffer.clear();
        self.num_pages = 0;
        self.first_page_statistics = None;
        self.statistics = Statistics::new(self.data_type);
        proof {
            self.pages = Ghost(Seq::empty());
            assert(self.page_buffer@ =~= self@.page_buffer());
        }
    }

} // impl ChunkWriter

/// The state of an I/O writer after a chunk writer in the state `chunk`,
/// its open page sealed, has written its chunk: nothing changes where the
/// chunk counts no value; else the bytes of the chunk are written and its
/// metadata joins those of the open chunk group.
pub open spec fn io_with_chunk(io: IoState, chunk: ChunkState) -> IoState {
    if chunk.has_data() {
        IoState {
            out: io.out + chunk.chunk_bytes(),
            chunk_metadata: io.chunk_metadata.push(chunk.chunk_meta(io.out.len() as u64)),
            current_chunk: None,
            ..io
        }
    } else {
        io
    }
}

proof fn lemma_chunk_written(start: Seq<u8>, chunk: ChunkState, out: Seq<u8>)
    requires
        out == start + chunk_header_bytes(
            chunk.measurement_id,
            low_u32_of(chunk.page_buffer().len() as int),
            chunk.data_type,
            chunk.compression_type,
            chunk.encoding,
            chunk.page_count(),
            0,
        ) + chunk.page_buffer(),
    ensures
        out == start + chunk.chunk_bytes(),
{
    assert(out =~= start + chunk.chunk_bytes());
}

/// The bytes of the header of a chunk: the marker, which tells a chunk of
/// at most one page from one of more and carries the mask; the stored name
/// of the series; the size of the pages as a variable-length integer; the
/// tags of the data type, the compression and the encoding.
pub open spec fn chunk_header_bytes(
    measurement_id: Seq<u8>,
    data_size: u32,
    data_type: TSDataType,
    compression: CompressionType,
    encoding: TSEncoding,
    num_pages: u32,
    mask: u8,
) -> Seq<u8> {
    seq![
        (if num_pages <= 1 {
            ONLY_ONE_PAGE_CHUNK_HEADER
        } else {
            CHUNK_HEADER
        }) | mask,
    ] + var_str(measurement_id) + var_u32_bytes(data_size) + seq![
        data_type.tag(),
        compression.tag(),
        encoding.tag(),
    ]
}

/// The header of a chunk.
pub struct ChunkHeader {
    pub measurement_id: Vec<u8>,
    pub data_size: u32,
    pub data_type: TSDataType,
    pub compression: CompressionType,
    pub encoding: TSEncoding,
    pub num_pages: u32,
    pub mask: u8,
}

impl ChunkHeader {
    /// The bytes of the header.
    pub open spec fn bytes(&self) -> Seq<u8> {
        chunk_header_bytes(
            self.measurement_id@,
            self.data_size,
            self.data_type,
            self.compression,
            self.encoding,
            self.num_pages,
            self.mask,
        )
    }

    /// The header of a chunk of the series `measurement_id` with `num_pages`
    /// pages that take `data_size` bytes.
    pub fn new(
        measurement_id: &[u8],
        data_size: u32,
        data_type: TSDataType,
        compression: CompressionType,
        encoding: TSEncoding,
        num_pages: u32,
        mask: u8,
    ) -> (header: ChunkHeader)
        ensures
            header.measurement_id@ == measurement_id@,
            header.data_size == data_size,
            header.data_type == data_type,
            header.compression == compression,
            header.encoding == encoding,
            header.num_pages == num_pages,
            header.mask == mask,
    {
        ChunkHeader {
            measurement_id: slice_to_vec(measurement_id),
            data_size,
            data_type,
            compression,
            encoding,
            num_pages,
            mask,
        }
    }

    /// Appends the bytes of the header to `file_writer`.
    pub fn serialize(&self, file_writer: &mut Vec<u8>)
        requires
            self.measurement_id@.len() <= MAX_NAME_LENGTH,
        ensures
            final(file_writer)@ == old(file_writer)@ + self.bytes(),
    {
        let marker = if self.num_pages <= 1 {
            ONLY_ONE_PAGE_CHUNK_HEADER
        } else {
            CHUNK_HEADER
        };
        let marker = marker | self.mask;
        let ghost start = file_writer@;
        file_writer.push(marker);
        write_str(file_writer, self.measurement_id.as_slice());
        let ghost head = seq![marker] + var_str(self.measurement_id@);
        assert(file_writer@ =~= start + head);
        write_var_u32(self.data_size, file_writer);
        assert(file_writer@ =~= start + (head + var_u32_bytes(self.data_size)));
        file_writer.push(self.data_type.serialize());
        file_writer.push(self.compression.serialize());
        file_writer.push(self.encoding.serialize());
        assert(file_writer@ =~= start + self.bytes());
    }
}

/// What is kept of a chunk that has been written: the name and the type
/// of its series, its mask, the place of its header in the file, and its
/// statistics.
pub struct ChunkMeta {
    pub measurement_id: Seq<u8>,
    pub data_type: TSDataType,
    pub mask: u8,
    pub offset_of_chunk_header: u64,
    pub statistics: Statistics,
}

/// The bytes of a chunk's metadata in the list of its series: the place of
/// the chunk's header in eight big-endian bytes and, where the series has
/// more chunks than one, the statistics of the chunk.
pub open spec fn chunk_meta_bytes(meta: ChunkMeta, serialize_statistics: bool) -> Seq<u8> {
    be_bytes_u64(meta.offset_of_chunk_header) + if serialize_statistics {
        meta.statistics.serialized()
    } else {
        Seq::empty()
    }
}

/// The metadata of a chunk that has been written.
pub struct ChunkMetadata {
    pub measurement_id: Vec<u8>,
    pub data_type: TSDataType,
    pub mask: u8,
    pub offset_of_chunk_header: u64,
    pub statistics: Statistics,
}

impl View for ChunkMetadata {
    type V = ChunkMeta;

    open spec fn view(&self) -> ChunkMeta {
        ChunkMeta {
            measurement_id: self.measurement_id@,
            data_type: self.data_type,
            mask: self.mask,
            offset_of_chunk_header: self.offset_of_chunk_header,
            statistics: self.statistics,
        }
    }
}

impl ChunkMetadata {
    /// The metadata of a chunk of the series `measurement_id` whose header
    /// stands at `position`.
    pub fn new(
        measurement_id: &[u8],
        data_type: TSDataType,
        position: u64,
        statistics: Statistics,
        mask: u8,
    ) -> (metadata: ChunkMetadata)
        ensures
            metadata@ == (ChunkMeta {
                measurement_id: measurement_id@,
                data_type,
                mask,
                offset_of_chunk_header: position,
                statistics,
            }),
    {
        ChunkMetadata {
            measurement_id: slice_to_vec(measurement_id),
            data_type,
            mask,
            offset_of_chunk_header: position,
            statistics,
        }
    }

    /// Appends the bytes of the metadata to `file`.
    pub fn serialize(&self, file: &mut Vec<u8>, serialize_statistics: bool)
        ensures
            final(file)@ == old(file)@ + chunk_meta_bytes(self@, serialize_statistics),
    {
        write_u64_be(self.offset_of_chunk_header, file);
        if serialize_statistics {
            self.statistics.serialize(file);
        }
        assert(file@ =~= old(file)@ + chunk_meta_bytes(self@, serialize_statistics));
    }
}

impl ChunkState {
    /// Whether the size reckoned for the chunk is the size that it takes in
    /// a file: its name is shorter than 64 bytes, so that its length takes
    /// one byte either way; it counts a value exactly if it has a page; and
    /// its bytes are no more than a 64-bit number counts.
    pub open spec fn reckoned_right(self) -> bool {
        &&& self.measurement_id.len() < 64
        &&& self.has_data() == (self.page_buffer().len() > 0)
        &&& 16 + self.measurement_id.len() + self.page_buffer().len() <= u64::MAX
    }
}

/// The statistics of pages count their samples, in wrapping 32-bit
/// arithmetic.
pub proof fn lemma_statistics_count(
    data_type: TSDataType,
    encoding: TSEncoding,
    pages: Seq<Seq<Sample>>,
)
    requires
        pages_of_type(pages, data_type),
    ensures
        merged_statistics(data_type, encoding, pages).spec_count() == flattened(pages).len()
            % 0x1_0000_0000,
    decreases pages.len(),
{
    if pages.len() > 0 {
        let rest = pages.drop_last();
        assert(pages_of_type(rest, data_type)) by {
            assert forall|i: int| 0 <= i < rest.len() implies all_of_type(
                #[trigger] rest[i],
                data_type,
            ) by {
                assert(rest[i] == pages[i]);
            }
        }
        lemma_statistics_count(data_type, encoding, rest);
        assert(all_of_type(pages.last(), data_type)) by {
            assert(pages.last() == pages[pages.len() - 1]);
        }
        lemma_folded_count(Statistics::initial(data_type), pages.last());
        lemma_merged_statistics_type(data_type, encoding, rest);
        lemma_folded_type(Statistics::initial(data_type), pages.last());
        let before = merged_statistics(data_type, encoding, rest);
        let page = page_of(data_type, encoding, pages.last()).statistics();
        assert(page.spec_count() == pages.last().len() % 0x1_0000_0000);
        assert(before.merged(page).spec_count() == before.spec_count().wrapping_add(
            page.spec_count(),
        ));
        vstd::arithmetic::div_mod::lemma_add_mod_noop(
            flattened(rest).len() as int,
            pages.last().len() as int,
            0x1_0000_0000,
        );
        assert(flattened(pages).len() == flattened(rest).len() + pages.last().len());
    }
}

/// Statistics that take samples of their type count them, in wrapping
/// 32-bit arithmetic.
pub proof fn lemma_folded_count(statistics: Statistics, samples: Seq<Sample>)
    requires
        all_of_type(samples, statistics.data_type()),
    ensures
        statistics.folded(samples).spec_count() == (statistics.spec_count() + samples.len())
            % 0x1_0000_0000,
    decreases samples.len(),
{
    if samples.len() > 0 {
        let rest = samples.drop_last();
        assert(all_of_type(rest, statistics.data_type())) by {
            assert forall|i: int| 0 <= i < rest.len() implies (#[trigger] rest[i]).1.spec_data_type()
                == statistics.data_type() by {
                assert(rest[i] == samples[i]);
            }
        }
        lemma_folded_count(statistics, rest);
        lemma_folded_type(statistics, rest);
        assert(samples.last() == samples[samples.len() - 1]);
    }
}

/// A chunk whose size is reckoned right takes in a file the size that is
/// reckoned for it.
pub proof fn lemma_chunk_reckoned(io: IoState, chunk: ChunkState)
    requires
        chunk.reckoned_right(),
    ensures
        io_with_chunk(io, chunk).out.len() == io.out.len() + chunk.serialized_size(),
{
    if chunk.has_data() {
        let size = low_u32_of(chunk.page_buffer().len() as int);
        let name = chunk.measurement_id;
        crate::utils::lemma_var_u32_len(crate::utils::zigzag(name.len() as i32));
        assert(var_i32_bytes(name.len() as i32).len() == 1);
        crate::utils::lemma_var_u32_len(size);
        let header = chunk_header_bytes(
            name,
            size,
            chunk.data_type,
            chunk.compression_type,
            chunk.encoding,
            chunk.page_count(),
            0,
        );
        assert(var_str(name).len() == 1 + name.len());
        assert(header.len() == 1 + (1 + name.len()) + var_u32_bytes(size).len() + 3);
        assert(chunk.chunk_bytes().len() == header.len() + chunk.page_buffer().len());
        assert(io_with_chunk(io, chunk).out == io.out + chunk.chunk_bytes());
    } else {
        assert(io_with_chunk(io, chunk) == io);
    }
}

} // verus!
