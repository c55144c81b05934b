//! Builders that put a schema together one device and one measurement at a
//! time.
use crate::compression::CompressionType;
use crate::encoding::TSEncoding;
use crate::sorted_map::SortedMap;
use crate::utils::text_bytes;
use crate::{
    valid_device_id, valid_measurement_id, MeasurementGroup, MeasurementSchema, Schema, TSDataType,
};
use vstd::prelude::*;

verus! {

/// Every name of a map that was valid stays valid when a valid name is
/// put in.
proof fn lemma_names_stay_valid(
    before: Seq<Seq<u8>>,
    after: Seq<Seq<u8>>,
    key: Seq<u8>,
    place: int,
    replaced: bool,
    valid: spec_fn(Seq<u8>) -> bool,
)
    requires
        forall|i: int| 0 <= i < before.len() ==> valid(#[trigger] before[i]),
        valid(key),
        replaced ==> after == before,
        !replaced ==> 0 <= place <= before.len() && after == before.insert(place, key),
    ensures
        forall|i: int| 0 <= i < after.len() ==> valid(#[trigger] after[i]),
{
    if !replaced {
        assert forall|i: int| 0 <= i < after.len() implies valid(#[trigger] after[i]) by {
            if i < place {
                assert(after[i] == before[i]);
            } else if i > place {
                assert(after[i] == before[i - 1]);
            }
        }
    }
}

/// Builder of a schema.
pub struct TsFileSchemaBuilder {
    pub measurement_groups_map: SortedMap<MeasurementGroup>,
}

impl TsFileSchemaBuilder {
    /// Whether what has been gathered is a schema.
    pub open spec fn wf(&self) -> bool {
        (Schema { measurement_groups: self.measurement_groups_map }).wf()
    }

    /// A builder that holds no device.
    pub fn new() -> (builder: TsFileSchemaBuilder)
        ensures
            builder.wf(),
            builder.measurement_groups_map.keys@.len() == 0,
    {
        TsFileSchemaBuilder { measurement_groups_map: SortedMap::new() }
    }

    /// Puts the measurements of `device` into the schema, in place of those
    /// that it had for that device.
    pub fn add(self, device: &str, schema: MeasurementGroup) -> (builder: TsFileSchemaBuilder)
        requires
            self.wf(),
            schema.wf(),
            valid_device_id(text_bytes(device@)),
        ensures
            builder.wf(),
            builder.measurement_groups_map.contains_key(text_bytes(device@)),
            self.measurement_groups_map.contains_key(text_bytes(device@)) ==> {
                &&& builder.measurement_groups_map.key_seq()
                    == self.measurement_groups_map.key_seq()
                &&& builder.measurement_groups_map.values@
                    == self.measurement_groups_map.values@.update(
                    self.measurement_groups_map.index_of(text_bytes(device@)),
                    schema,
                )
            },
            !self.measurement_groups_map.contains_key(text_bytes(device@)) ==> {
                &&& builder.measurement_groups_map.key_seq()
                    == self.measurement_groups_map.key_seq().insert(
                    self.measurement_groups_map.rank(text_bytes(device@)),
                    text_bytes(device@),
                )
                &&& builder.measurement_groups_map.values@
                    == self.measurement_groups_map.values@.insert(
                    self.measurement_groups_map.rank(text_bytes(device@)),
                    schema,
                )
            },
    {
        let mut map = self.measurement_groups_map;
        let ghost before = map;
        let ghost key = text_bytes(device@);
        map.insert(device, schema);
        proof {
            let replaced = before.contains_key(key);
            let place = before.rank(key);
            if !replaced {
                assert(map.key_seq().len() == before.key_seq().len() + 1);
            }
            lemma_names_stay_valid(
                before.key_seq(),
                map.key_seq(),
                key,
                place,
                replaced,
                |name: Seq<u8>| valid_device_id(name),
            );
            assert forall|i: int| 0 <= i < map.keys@.len() implies (#[trigger] map.values@[i]).wf() by {
                if replaced {
                    if i != before.index_of(key) {
                        assert(map.values@[i] == before.values@[i]);
                    }
                } else {
                    if i < place {
                        assert(map.values@[i] == before.values@[i]);
                    } else if i > place {
                        assert(map.values@[i] == before.values@[i - 1]);
                    }
                }
            }
        }
        TsFileSchemaBuilder { measurement_groups_map: map }
    }

    /// The schema gathered.
    pub fn build(self) -> (schema: Schema)
        requires
            self.wf(),
        ensures
            schema.wf(),
            schema.measurement_groups == self.measurement_groups_map,
    {
        Schema { measurement_groups: self.measurement_groups_map }
    }
}

/// Builder of the measurements of one device.
pub struct DeviceBuilder {
    pub measurement_groups_map: SortedMap<MeasurementSchema>,
}

impl DeviceBuilder {
    /// Whether what has been gathered is a map of measurements under names
    /// that can name one.
    pub open spec fn wf(&self) -> bool {
        &&& self.measurement_groups_map.wf()
        &&& forall|i: int|
            0 <= i < self.measurement_groups_map.keys@.len() ==> valid_measurement_id(
                #[trigger] self.measurement_groups_map.key_seq()[i],
            )
    }

    /// A builder that holds no measurement.
    pub fn new() -> (builder: DeviceBuilder)
        ensures
            builder.wf(),
            builder.measurement_groups_map.keys@.len() == 0,
    {
        DeviceBuilder { measurement_groups_map: SortedMap::new() }
    }

    /// Declares the series `measurement`, in place of what was declared
    /// under that name.
    pub fn add(
        self,
        measurement: &str,
        data_type: TSDataType,
        encoding: TSEncoding,
        compression: CompressionType,
    ) -> (builder: DeviceBuilder)
        requires
            self.wf(),
            valid_measurement_id(text_bytes(measurement@)),
        ensures
            builder.wf(),
            builder.measurement_groups_map.contains_key(text_bytes(measurement@)),
            self.measurement_groups_map.contains_key(text_bytes(measurement@)) ==> {
                &&& builder.measurement_groups_map.key_seq()
                    == self.measurement_groups_map.key_seq()
                &&& builder.measurement_groups_map.values@
                    == self.measurement_groups_map.values@.update(
                    self.measurement_groups_map.index_of(text_bytes(measurement@)),
                    MeasurementSchema { data_type, encoding, compression },
                )
            },
            !self.measurement_groups_map.contains_key(text_bytes(measurement@)) ==> {
                &&& builder.measurement_groups_map.key_seq()
                    == self.measurement_groups_map.key_seq().insert(
                    self.measurement_groups_map.rank(text_bytes(measurement@)),
                    text_bytes(measurement@),
                )
                &&& builder.measurement_groups_map.values@
                    == self.measurement_groups_map.values@.insert(
                    self.measurement_groups_map.rank(text_bytes(measurement@)),
                    MeasurementSchema { data_type, encoding, compression },
                )
            },
    {
        let mut map = self.measurement_groups_map;
        let ghost before = map;
        let ghost key = text_bytes(measurement@);
        map.insert(measurement, MeasurementSchema { data_type, encoding, compression });
        proof {
            let replaced = before.contains_key(key);
            if !replaced {
                assert(map.key_seq().len() == before.key_seq().len() + 1);
            }
            lemma_names_stay_valid(
                before.key_seq(),
                map.key_seq(),
                key,
                before.rank(key),
                replaced,
                |name: Seq<u8>| valid_measurement_id(name),
            );
        }
        DeviceBuilder { measurement_groups_map: map }
    }

    /// The measurements gathered, of which there is at least one.
    pub fn build(self) -> (group: MeasurementGroup)
        requires
            self.wf(),
            self.measurement_groups_map.keys@.len() >= 1,
        ensures
            group.wf(),
            group.measurement_schemas == self.measurement_groups_map,
    {
        MeasurementGroup { measurement_schemas: self.measurement_groups_map }
    }
}

} // verus!
