//! The index over the metadata of a file: a tree whose leaves point at the
//! metadata of the series of a device and whose upper nodes point at nodes,
//! each node holding at most a given number of entries.
use crate::sorted_map::SortedMap;
use crate::statistics::Statistics;
use crate::utils::{
    be_bytes_u64, low_u32, low_u32_of, var_u32_bytes, write_bytes, write_u64_be, write_var_u32,
};
use crate::{var_str, write_str, TSDataType, MAX_NAME_LENGTH};
use vstd::prelude::*;
use vstd::slice::slice_to_vec;

verus! {

/// The kind of a node of the index.
#[derive(Clone, Copy, Debug, PartialEq, Eq, Structural)]
pub enum MetadataIndexNodeType {
    InternalDevice,
    LeafDevice,
    InternalMeasurement,
    LeafMeasurement,
}

impl MetadataIndexNodeType {
    /// The tag of the kind.
    pub open spec fn tag(self) -> u8 {
        match self {
            MetadataIndexNodeType::InternalDevice => 0,
            MetadataIndexNodeType::LeafDevice => 1,
            MetadataIndexNodeType::InternalMeasurement => 2,
            MetadataIndexNodeType::LeafMeasurement => 3,
        }
    }

    /// Appends the tag of the kind to `file`.
    pub fn serialize(&self, file: &mut Vec<u8>)
        ensures
            final(file)@ == old(file)@.push(self.tag()),
    {
        let byte: u8 = match self {
            MetadataIndexNodeType::InternalDevice => 0,
            MetadataIndexNodeType::LeafDevice => 1,
            MetadataIndexNodeType::InternalMeasurement => 2,
            MetadataIndexNodeType::LeafMeasurement => 3,
        };
        file.push(byte);
    }
}

/// One entry of a node: a name and the place in the file of what the entry
/// points at.
pub struct IndexEntry {
    pub name: Seq<u8>,
    pub offset: u64,
}

/// One node of the index: its entries, the place in the file where what
/// its entries point at ends, and its kind.
pub struct IndexNode {
    pub children: Seq<IndexEntry>,
    pub end_offset: u64,
    pub node_type: MetadataIndexNodeType,
}

/// The bytes of an entry: the stored form of its name, then its offset in
/// eight big-endian bytes.
pub open spec fn entry_bytes(entry: IndexEntry) -> Seq<u8> {
    var_str(entry.name) + be_bytes_u64(entry.offset)
}

/// The bytes of entries, one after the other.
pub open spec fn entries_bytes(entries: Seq<IndexEntry>) -> Seq<u8>
    decreases entries.len(),
{
    if entries.len() == 0 {
        Seq::empty()
    } else {
        entries_bytes(entries.drop_last()) + entry_bytes(entries.last())
    }
}

/// The bytes of a node: the number of its entries as a variable-length
/// integer, its entries, its end offset in eight big-endian bytes, the tag
/// of its kind.
pub open spec fn node_bytes(node: IndexNode) -> Seq<u8> {
    var_u32_bytes(low_u32_of(node.children.len() as int)) + entries_bytes(node.children)
        + be_bytes_u64(node.end_offset) + seq![node.node_type.tag()]
}

/// Whether every entry of the node has a name short enough to be stored.
pub open spec fn node_storable(node: IndexNode) -> bool {
    forall|i: int| 0 <= i < node.children.len() ==> (#[trigger] node.children[i]).name.len()
        <= MAX_NAME_LENGTH
}

/// One thing that an entry points at: the name that the entry gets and the
/// bytes of the thing.
pub type Item = (Seq<u8>, Seq<u8>);

/// The bytes of items, one after the other.
pub open spec fn joined(items: Seq<Item>) -> Seq<u8>
    decreases items.len(),
{
    if items.len() == 0 {
        Seq::empty()
    } else {
        joined(items.drop_last()) + items.last().1
    }
}

/// The entries for items that are written one after the other from the
/// place `start` of the file: each entry has the name of its item and the
/// place where the item begins.
pub open spec fn placed(items: Seq<Item>, start: int) -> Seq<IndexEntry>
    decreases items.len(),
{
    if items.len() == 0 {
        Seq::empty()
    } else {
        placed(items.drop_last(), start).push(
            IndexEntry {
                name: items.last().0,
                offset: (start + joined(items.drop_last()).len()) as u64,
            },
        )
    }
}

/// The nodes of kind `kind` that hold `entries` in order, each but the last
/// with `degree` entries. A node ends where the next one's first entry
/// points, the last node at `end`.
pub open spec fn chunked(
    entries: Seq<IndexEntry>,
    end: u64,
    kind: MetadataIndexNodeType,
    degree: int,
) -> Seq<IndexNode>
    decreases entries.len(),
{
    if degree <= 0 || entries.len() <= degree {
        seq![IndexNode { children: entries, end_offset: end, node_type: kind }]
    } else {
        seq![
            IndexNode {
                children: entries.take(degree),
                end_offset: entries[degree].offset,
                node_type: kind,
            },
        ] + chunked(entries.skip(degree), end, kind, degree)
    }
}

/// The items that the nodes of one level are when the level above them is
/// built: each under the name of its first entry.
pub open spec fn node_items(nodes: Seq<IndexNode>) -> Seq<Item> {
    Seq::new(nodes.len(), |i: int| (nodes[i].children[0].name, node_bytes(nodes[i])))
}

/// The root above the nodes of `queue`, and the bytes written to get
/// there, from the place `start` of the file. While more nodes than one are
/// left, they are written one after the other and the nodes of the level
/// above, of kind `kind`, take their place.
pub open spec fn root_of(
    queue: Seq<IndexNode>,
    start: int,
    kind: MetadataIndexNodeType,
    degree: int,
) -> (IndexNode, Seq<u8>)
    decreases queue.len(),
{
    if queue.len() <= 1 {
        (queue[0], Seq::empty())
    } else {
        let bytes = joined(node_items(queue));
        let next = chunked(
            placed(node_items(queue), start),
            (start + bytes.len()) as u64,
            kind,
            degree,
        );
        if next.len() < queue.len() {
            let above = root_of(next, start + bytes.len(), kind, degree);
            (above.0, bytes + above.1)
        } else {
            (queue[0], bytes)
        }
    }
}

/// As many entries are placed as there are items, each under the name of
/// its item.
pub proof fn lemma_placed(items: Seq<Item>, start: int)
    ensures
        placed(items, start).len() == items.len(),
        forall|i: int| 0 <= i < items.len() ==> (#[trigger] placed(items, start)[i]).name == items[i].0,
    decreases items.len(),
{
    if items.len() > 0 {
        lemma_placed(items.drop_last(), start);
        assert forall|i: int| 0 <= i < items.len() implies (#[trigger] placed(items, start)[i]).name
            == items[i].0 by {
            if i < items.len() - 1 {
                assert(placed(items, start)[i] == placed(items.drop_last(), start)[i]);
                assert(items.drop_last()[i] == items[i]);
            }
        }
    }
}

/// Each entry points at the place where its item begins: the items before
/// it end there, and the item's bytes follow.
pub proof fn lemma_entry_points_at_item(items: Seq<Item>, start: int, i: int)
    requires
        0 <= i < items.len(),
    ensures
        placed(items, start).len() == items.len(),
        placed(items, start)[i].name == items[i].0,
        placed(items, start)[i].offset == (start + joined(items.take(i)).len()) as u64,
        joined(items.take(i)).len() + items[i].1.len() == joined(items.take(i + 1)).len(),
        joined(items.take(i + 1)).len() <= joined(items).len(),
        joined(items).subrange(
            joined(items.take(i)).len() as int,
            joined(items.take(i + 1)).len() as int,
        ) == items[i].1,
    decreases items.len(),
{
    lemma_placed(items, start);
    let rest = items.drop_last();
    assert(items.take(i + 1).drop_last() =~= items.take(i));
    assert(items.take(i + 1).last() == items[i]);
    if i == items.len() - 1 {
        assert(items.take(i) =~= rest);
        assert(items.take(i + 1) =~= items);
        assert(joined(items).subrange(joined(rest).len() as int, joined(items).len() as int)
            =~= items[i].1);
    } else {
        lemma_entry_points_at_item(rest, start, i);
        assert(rest.take(i) =~= items.take(i));
        assert(rest.take(i + 1) =~= items.take(i + 1));
        assert(rest[i] == items[i]);
        assert(placed(items, start)[i] == placed(rest, start)[i]);
        assert(joined(items).subrange(
            joined(items.take(i)).len() as int,
            joined(items.take(i + 1)).len() as int,
        ) =~= joined(rest).subrange(
            joined(items.take(i)).len() as int,
            joined(items.take(i + 1)).len() as int,
        ));
    }
}

/// Entries are chunked into at least one node and no more nodes than
/// entries, and into fewer where there are two entries or more and a node
/// holds two or more. Each node holds an entry where there is one at all,
/// and the names of the nodes are names of the entries.
pub proof fn lemma_chunked(entries: Seq<IndexEntry>, end: u64, kind: MetadataIndexNodeType, degree: int)
    requires
        degree >= 2,
    ensures
        1 <= chunked(entries, end, kind, degree).len(),
        entries.len() >= 2 ==> chunked(entries, end, kind, degree).len() < entries.len(),
        entries.len() >= 1 ==> chunked(entries, end, kind, degree).len() <= entries.len(),
        entries.len() >= 1 ==> forall|i: int|
            0 <= i < chunked(entries, end, kind, degree).len() ==> (#[trigger] chunked(
                entries,
                end,
                kind,
                degree,
            )[i]).children.len() >= 1,
        (forall|i: int| 0 <= i < entries.len() ==> (#[trigger] entries[i]).name.len() <= MAX_NAME_LENGTH)
            ==> forall|i: int|
            0 <= i < chunked(entries, end, kind, degree).len() ==> node_storable(
                #[trigger] chunked(entries, end, kind, degree)[i],
            ),
    decreases entries.len(),
{
    let nodes = chunked(entries, end, kind, degree);
    if entries.len() > degree {
        let rest = entries.skip(degree);
        lemma_chunked(rest, end, kind, degree);
        let tail = chunked(rest, end, kind, degree);
        assert(nodes =~= seq![
            IndexNode {
                children: entries.take(degree),
                end_offset: entries[degree].offset,
                node_type: kind,
            },
        ] + tail);
        assert forall|i: int| 0 <= i < nodes.len() implies (#[trigger] nodes[i]).children.len()
            >= 1 by {
            if i > 0 {
                assert(nodes[i] == tail[i - 1]);
            }
        }
        if forall|i: int| 0 <= i < entries.len() ==> (#[trigger] entries[i]).name.len() <= MAX_NAME_LENGTH {
            assert forall|i: int| 0 <= i < rest.len() implies (#[trigger] rest[i]).name.len()
                <= MAX_NAME_LENGTH by {
                assert(rest[i] == entries[i + degree]);
            }
            assert forall|i: int| 0 <= i < nodes.len() implies node_storable(#[trigger] nodes[i]) by {
                if i > 0 {
                    assert(nodes[i] == tail[i - 1]);
                } else {
                    assert forall|j: int| 0 <= j < nodes[0].children.len() implies (
                    #[trigger] nodes[0].children[j]).name.len() <= MAX_NAME_LENGTH by {
                        assert(nodes[0].children[j] == entries[j]);
                    }
                }
            }
        }
    }
}

/// An entry of a node.
pub struct MetadataIndexEntry {
    pub name: Vec<u8>,
    pub offset: u64,
}

impl View for MetadataIndexEntry {
    type V = IndexEntry;

    open spec fn view(&self) -> IndexEntry {
        IndexEntry { name: self.name@, offset: self.offset }
    }
}

impl MetadataIndexEntry {
    /// Appends the bytes of the entry to `file`.
    pub fn serialize(&self, file: &mut Vec<u8>)
        requires
            self.name@.len() <= MAX_NAME_LENGTH,
        ensures
            final(file)@ == old(file)@ + entry_bytes(self@),
    {
        write_str(file, self.name.as_slice());
        write_u64_be(self.offset, file);
        assert(file@ =~= old(file)@ + entry_bytes(self@));
    }
}

/// The entries that a vector of entries stands for.
pub open spec fn entries_view(entries: Seq<MetadataIndexEntry>) -> Seq<IndexEntry> {
    Seq::new(entries.len(), |i: int| entries[i]@)
}

/// The nodes that a vector of nodes stands for.
pub open spec fn nodes_view(nodes: Seq<MetadataIndexNode>) -> Seq<IndexNode> {
    Seq::new(nodes.len(), |i: int| nodes[i]@)
}

/// A node of the index.
pub struct MetadataIndexNode {
    pub children: Vec<MetadataIndexEntry>,
    pub end_offset: u64,
    pub node_type: MetadataIndexNodeType,
}

impl View for MetadataIndexNode {
    type V = IndexNode;

    open spec fn view(&self) -> IndexNode {
        IndexNode {
            children: entries_view(self.children@),
            end_offset: self.end_offset,
            node_type: self.node_type,
        }
    }
}

impl MetadataIndexNode {
    /// A node of kind `node_type` without entries.
    pub fn new(node_type: MetadataIndexNodeType) -> (node: MetadataIndexNode)
        ensures
            node@ == (IndexNode { children: Seq::empty(), end_offset: 0, node_type }),
    {
        let node = MetadataIndexNode { children: Vec::new(), end_offset: 0, node_type };
        assert(node@.children =~= Seq::empty());
        node
    }

    /// Whether the node holds as many entries as a node may.
    pub fn is_full(&self, max_degree: usize) -> (full: bool)
        ensures
            full == (self@.children.len() >= max_degree),
    {
        self.children.len() >= max_degree
    }

    /// Appends the bytes of the node to `file`.
    pub fn serialize(&self, file: &mut Vec<u8>)
        requires
            node_storable(self@),
        ensures
            final(file)@ == old(file)@ + node_bytes(self@),
    {
        let ghost start = file@;
        write_var_u32(low_u32(self.children.len()), file);
        let ghost count = var_u32_bytes(low_u32_of(self@.children.len() as int));
        let mut i: usize = 0;
        while i < self.children.len()
            invariant
                i <= self.children@.len(),
                node_storable(self@),
                file@ == start + count + entries_bytes(self@.children.take(i as int)),
            decreases self.children@.len() - i,
        {
            assert(self@.children[i as int] == self.children@[i as int]@);
            self.children[i].serialize(file);
            proof {
                assert(self@.children.take(i + 1).drop_last() =~= self@.children.take(i as int));
                assert(file@ =~= start + count + entries_bytes(self@.children.take(i + 1)));
            }
            i = i + 1;
        }
        proof {
            assert(self@.children.take(i as int) =~= self@.children);
        }
        write_u64_be(self.end_offset, file);
        self.node_type.serialize(file);
        assert(file@ =~= start + node_bytes(self@));
    }
}

/// A copy of a name.
pub fn copy_name(name: &Vec<u8>) -> (copy: Vec<u8>)
    ensures
        copy@ == name@,
{
    slice_to_vec(name.as_slice())
}

/// Chunks `entries` into nodes of kind `kind`, each but the last with
/// `degree` entries; the last one ends at `end`.
pub fn chunk_entries(
    entries: &Vec<MetadataIndexEntry>,
    end: u64,
    kind: MetadataIndexNodeType,
    degree: usize,
) -> (queue: Vec<MetadataIndexNode>)
    requires
        degree >= 1,
    ensures
        nodes_view(queue@) == chunked(entries_view(entries@), end, kind, degree as int),
{
    let mut queue: Vec<MetadataIndexNode> = Vec::new();
    let mut current: Vec<MetadataIndexEntry> = Vec::new();
    let ghost all = entries_view(entries@);
    let mut i: usize = 0;
    proof {
        assert(entries_view(current@) + all.skip(0) =~= all);
        assert(nodes_view(queue@) + chunked(all, end, kind, degree as int) =~= chunked(
            all,
            end,
            kind,
            degree as int,
        ));
    }
    while i < entries.len()
        invariant
            degree >= 1,
            i <= entries@.len(),
            all == entries_view(entries@),
            current@.len() <= degree,
            chunked(all, end, kind, degree as int) == nodes_view(queue@) + chunked(
                entries_view(current@) + all.skip(i as int),
                end,
                kind,
                degree as int,
            ),
        decreases entries@.len() - i,
    {
        let ghost pending = entries_view(current@) + all.skip(i as int);
        let ghost done = nodes_view(queue@);
        if current.len() == degree {
            let ghost held = entries_view(current@);
            let full = MetadataIndexNode {
                children: current,
                end_offset: entries[i].offset,
                node_type: kind,
            };
            proof {
                assert(pending.take(degree as int) =~= held);
                assert(pending[degree as int] == all[i as int]);
                assert(pending.skip(degree as int) =~= all.skip(i as int));
            }
            queue.push(full);
            current = Vec::new();
            proof {
                assert(nodes_view(queue@) =~= done.push(full@));
                assert(entries_view(current@) + all.skip(i as int) =~= all.skip(i as int));
                assert(chunked(all, end, kind, degree as int) =~= nodes_view(queue@) + chunked(
                    entries_view(current@) + all.skip(i as int),
                    end,
                    kind,
                    degree as int,
                ));
            }
        }
        let ghost before = entries_view(current@);
        current.push(
            MetadataIndexEntry { name: copy_name(&entries[i].name), offset: entries[i].offset },
        );
        proof {
            assert(entries_view(current@) =~= before.push(all[i as int]));
            assert(entries_view(current@) + all.skip(i + 1) =~= before + all.skip(i as int));
        }
        i = i + 1;
    }
    let ghost done = nodes_view(queue@);
    let last = MetadataIndexNode { children: current, end_offset: end, node_type: kind };
    proof {
        assert(entries_view(current@) + all.skip(i as int) =~= entries_view(current@));
    }
    queue.push(last);
    proof {
        assert(nodes_view(queue@) =~= done.push(last@));
        assert(nodes_view(queue@) =~= chunked(all, end, kind, degree as int));
    }
    queue
}

/// The metadata of one series: a type byte, the series' name and type,
/// the statistics of all its chunks, and the list of its chunks' metadata
/// in bytes.
pub struct SeriesMetadata {
    pub metadata_type: u8,
    pub list_size: u32,
    pub measurement_id: Seq<u8>,
    pub data_type: TSDataType,
    pub statistics: Statistics,
    pub buffer: Seq<u8>,
}

/// The bytes of the metadata of a series: the type byte, the stored name,
/// the tag of the data type, the size of the list of chunk metadata as a
/// variable-length integer, the statistics, the list.
pub open spec fn series_bytes(series: SeriesMetadata) -> Seq<u8> {
    seq![series.metadata_type] + var_str(series.measurement_id) + seq![series.data_type.tag()]
        + var_u32_bytes(series.list_size) + series.statistics.serialized() + series.buffer
}

/// The metadata of one series.
pub struct TimeSeriesMetadata {
    pub time_series_metadata_type: u8,
    pub chunk_meta_data_list_data_size: u32,
    pub measurement_id: Vec<u8>,
    pub data_type: TSDataType,
    pub statistics: Statistics,
    pub buffer: Vec<u8>,
}

impl View for TimeSeriesMetadata {
    type V = SeriesMetadata;

    open spec fn view(&self) -> SeriesMetadata {
        SeriesMetadata {
            metadata_type: self.time_series_metadata_type,
            list_size: self.chunk_meta_data_list_data_size,
            measurement_id: self.measurement_id@,
            data_type: self.data_type,
            statistics: self.statistics,
            buffer: self.buffer@,
        }
    }
}

impl TimeSeriesMetadata {
    /// The name of the series.
    pub fn get_measurement_id(&self) -> (name: Vec<u8>)
        ensures
            name@ == self@.measurement_id,
    {
        copy_name(&self.measurement_id)
    }

    /// Appends the bytes of the metadata to `file`.
    pub fn serialize(&self, file: &mut Vec<u8>)
        requires
            self@.measurement_id.len() <= MAX_NAME_LENGTH,
        ensures
            final(file)@ == old(file)@ + series_bytes(self@),
    {
        let ghost start = file@;
        file.push(self.time_series_metadata_type);
        write_str(file, self.measurement_id.as_slice());
        file.push(self.data_type.serialize());
        let ghost head = seq![self.time_series_metadata_type] + var_str(self@.measurement_id)
            + seq![self.data_type.tag()];
        assert(file@ =~= start + head);
        write_var_u32(self.chunk_meta_data_list_data_size, file);
        assert(file@ =~= start + (head + var_u32_bytes(self.chunk_meta_data_list_data_size)));
        let ghost head = head + var_u32_bytes(self.chunk_meta_data_list_data_size);
        self.statistics.serialize(file);
        assert(file@ =~= start + (head + self.statistics.serialized()));
        let ghost head = head + self.statistics.serialized();
        write_bytes(self.buffer.as_slice(), file);
        assert(file@ =~= start + (head + self.buffer@));
    }
}

/// The metadata that a vector of metadata stands for.
pub open spec fn series_view(list: Seq<TimeSeriesMetadata>) -> Seq<SeriesMetadata> {
    Seq::new(list.len(), |i: int| list[i]@)
}

/// The items that the metadata of the series of a device are when the
/// leaves above them are built.
pub open spec fn series_items(list: Seq<SeriesMetadata>) -> Seq<Item> {
    Seq::new(list.len(), |i: int| (list[i].measurement_id, series_bytes(list[i])))
}

/// The root of the index of one device, and the bytes written to get
/// there, from the place `start` of the file: the metadata of its series one
/// after the other, leaves that point at them, and the nodes above the
/// leaves up to one.
pub open spec fn device_tree(list: Seq<SeriesMetadata>, start: int, degree: int) -> (
    IndexNode,
    Seq<u8>,
) {
    let items = series_items(list);
    let bytes = joined(items);
    let leaves = chunked(
        placed(items, start),
        (start + bytes.len()) as u64,
        MetadataIndexNodeType::LeafMeasurement,
        degree,
    );
    let above = root_of(
        leaves,
        start + bytes.len(),
        MetadataIndexNodeType::InternalMeasurement,
        degree,
    );
    (above.0, bytes + above.1)
}

/// The devices of a file with the metadata of their series.
pub type Devices = Seq<(Seq<u8>, Seq<SeriesMetadata>)>;

/// The roots of the indexes of the devices that have a series, each under
/// the name of its device, and the bytes written to get there, from the
/// place `start` of the file.
pub open spec fn device_trees(devices: Devices, start: int, degree: int) -> (
    Seq<(Seq<u8>, IndexNode)>,
    Seq<u8>,
)
    decreases devices.len(),
{
    if devices.len() == 0 {
        (Seq::empty(), Seq::empty())
    } else {
        let before = device_trees(devices.drop_last(), start, degree);
        if devices.last().1.len() == 0 {
            before
        } else {
            let tree = device_tree(devices.last().1, start + before.1.len(), degree);
            (before.0.push((devices.last().0, tree.0)), before.1 + tree.1)
        }
    }
}

/// The items that the roots of the devices are when the nodes above them
/// are built.
pub open spec fn root_items(roots: Seq<(Seq<u8>, IndexNode)>) -> Seq<Item> {
    Seq::new(roots.len(), |i: int| (roots[i].0, node_bytes(roots[i].1)))
}

/// The root of the index of a file, and the bytes written to get there,
/// from the place `start` of the file: the indexes of the devices in order,
/// their roots one after the other, and above them one leaf of devices
/// where a node can hold them all, else leaves of devices and the nodes
/// above those up to one.
pub open spec fn constructed(devices: Devices, start: int, degree: int) -> (IndexNode, Seq<u8>) {
    let trees = device_trees(devices, start, degree);
    let at = start + trees.1.len();
    let items = root_items(trees.0);
    let bytes = joined(items);
    let entries = placed(items, at);
    let end = (at + bytes.len()) as u64;
    if trees.0.len() <= degree {
        (
            IndexNode {
                children: entries,
                end_offset: end,
                node_type: MetadataIndexNodeType::LeafDevice,
            },
            trees.1 + bytes,
        )
    } else {
        let above = root_of(
            chunked(entries, end, MetadataIndexNodeType::LeafDevice, degree),
            at + bytes.len(),
            MetadataIndexNodeType::InternalDevice,
            degree,
        );
        (above.0, trees.1 + bytes + above.1)
    }
}

/// Whether each node of `queue` holds an entry and only names short enough
/// to be stored.
pub open spec fn queue_ready(queue: Seq<IndexNode>) -> bool {
    forall|i: int|
        0 <= i < queue.len() ==> node_storable(#[trigger] queue[i]) && queue[i].children.len() >= 1
}

proof fn lemma_queue_from_entries(
    entries: Seq<IndexEntry>,
    end: u64,
    kind: MetadataIndexNodeType,
    degree: int,
)
    requires
        degree >= 2,
        entries.len() >= 1,
        forall|i: int| 0 <= i < entries.len() ==> (#[trigger] entries[i]).name.len() <= MAX_NAME_LENGTH,
    ensures
        queue_ready(chunked(entries, end, kind, degree)),
        1 <= chunked(entries, end, kind, degree).len() <= entries.len(),
        entries.len() >= 2 ==> chunked(entries, end, kind, degree).len() < entries.len(),
{
    lemma_chunked(entries, end, kind, degree);
}

impl MetadataIndexNode {
    /// Writes the nodes of `queue` and the nodes above them, level by
    /// level, until one node is left, and returns that node.
    pub fn generate_root_node(
        queue: Vec<MetadataIndexNode>,
        file: &mut Vec<u8>,
        node_type: MetadataIndexNodeType,
        max_degree: usize,
    ) -> (root: MetadataIndexNode)
        requires
            queue@.len() >= 1,
            max_degree >= 2,
            queue_ready(nodes_view(queue@)),
        ensures
            root@ == root_of(
                nodes_view(queue@),
                old(file)@.len() as int,
                node_type,
                max_degree as int,
            ).0,
            final(file)@ == old(file)@ + root_of(
                nodes_view(queue@),
                old(file)@.len() as int,
                node_type,
                max_degree as int,
            ).1,
            node_storable(root@),
            root@.children.len() >= 1,
    {
        let ghost first = nodes_view(queue@);
        let ghost origin = file@.len() as int;
        let ghost written: Seq<u8> = Seq::empty();
        let mut queue = queue;
        proof {
            assert(file@ =~= old(file)@ + written);
            assert(written + root_of(first, origin, node_type, max_degree as int).1 =~= root_of(
                first,
                origin,
                node_type,
                max_degree as int,
            ).1);
        }
        while queue.len() > 1
            invariant
                max_degree >= 2,
                queue@.len() >= 1,
                queue_ready(nodes_view(queue@)),
                file@ == old(file)@ + written,
                root_of(first, origin, node_type, max_degree as int).0 == root_of(
                    nodes_view(queue@),
                    file@.len() as int,
                    node_type,
                    max_degree as int,
                ).0,
                root_of(first, origin, node_type, max_degree as int).1 == written + root_of(
                    nodes_view(queue@),
                    file@.len() as int,
                    node_type,
                    max_degree as int,
                ).1,
            decreases queue@.len(),
        {
            let ghost level = nodes_view(queue@);
            let ghost items = node_items(level);
            let ghost start = file@.len() as int;
            let ghost base = file@;
            let mut entries: Vec<MetadataIndexEntry> = Vec::new();
            let mut i: usize = 0;
            proof {
                assert(items.take(0) =~= Seq::<Item>::empty());
                assert(entries_view(entries@) =~= placed(items.take(0), start));
                assert(file@ =~= base + joined(items.take(0)));
            }
            while i < queue.len()
                invariant
                    i <= queue@.len(),
                    level == nodes_view(queue@),
                    items == node_items(level),
                    queue_ready(level),
                    start == base.len(),
                    entries_view(entries@) == placed(items.take(i as int), start),
                    file@ == base + joined(items.take(i as int)),
                decreases queue@.len() - i,
            {
                let ghost held = entries_view(entries@);
                assert(level[i as int] == queue@[i as int]@);
                assert(queue@[i as int]@.children[0] == queue@[i as int].children@[0]@);
                let entry = MetadataIndexEntry {
                    name: copy_name(&queue[i].children[0].name),
                    offset: file.len() as u64,
                };
                entries.push(entry);
                queue[i].serialize(file);
                proof {
                    assert(items.take(i + 1).drop_last() =~= items.take(i as int));
                    assert(items.take(i + 1).last() == items[i as int]);
                    assert(entries_view(entries@) =~= held.push(entry@));
                    assert(entries_view(entries@) =~= placed(items.take(i + 1), start));
                    assert(file@ =~= base + joined(items.take(i + 1)));
                }
                i = i + 1;
            }
            proof {
                assert(items.take(i as int) =~= items);
                lemma_placed(items, start);
                let placed_entries = placed(items, start);
                assert forall|k: int| 0 <= k < placed_entries.len() implies (
                #[trigger] placed_entries[k]).name.len() <= MAX_NAME_LENGTH by {
                    assert(node_storable(level[k]));
                    assert(level[k].children[0].name.len() <= MAX_NAME_LENGTH);
                }
                lemma_queue_from_entries(
                    placed_entries,
                    file@.len() as u64,
                    node_type,
                    max_degree as int,
                );
                assert(file@ =~= old(file)@ + (written + joined(items)));
                written = written + joined(items);
            }
            queue = chunk_entries(&entries, file.len() as u64, node_type, max_degree);
        }
        let ghost last = nodes_view(queue@);
        let root = queue.pop().unwrap();
        proof {
            assert(last[0] == root@);
            assert(written + Seq::<u8>::empty() =~= written);
        }
        root
    }
}

/// The devices that a map from devices to the metadata of their series
/// stands for, in the order of their names.
pub open spec fn devices_view(map: &SortedMap<Vec<TimeSeriesMetadata>>) -> Devices {
    Seq::new(map.keys@.len(), |i: int| (map.key_seq()[i], series_view(map.values@[i]@)))
}

/// Whether the names of the devices and of their series are short enough
/// to be stored.
pub open spec fn devices_storable(devices: Devices) -> bool {
    forall|i: int|
        0 <= i < devices.len() ==> (#[trigger] devices[i]).0.len() <= MAX_NAME_LENGTH && forall|
            j: int,
        |
            0 <= j < devices[i].1.len() ==> (#[trigger] devices[i].1[j]).measurement_id.len()
                <= MAX_NAME_LENGTH
}

/// The roots that a vector of names and a vector of nodes stand for.
pub open spec fn roots_view(names: Seq<Vec<u8>>, roots: Seq<MetadataIndexNode>) -> Seq<
    (Seq<u8>, IndexNode),
> {
    Seq::new(roots.len(), |i: int| (names[i]@, roots[i]@))
}

impl MetadataIndexNode {
    /// Writes the metadata of the series of one device and the nodes above
    /// them, and returns the root of the device's index.
    fn construct_device_index(
        list: &Vec<TimeSeriesMetadata>,
        file: &mut Vec<u8>,
        max_degree: usize,
    ) -> (root: MetadataIndexNode)
        requires
            list@.len() >= 1,
            max_degree >= 2,
            forall|j: int|
                0 <= j < list@.len() ==> (#[trigger] list@[j])@.measurement_id.len()
                    <= MAX_NAME_LENGTH,
        ensures
            root@ == device_tree(series_view(list@), old(file)@.len() as int, max_degree as int).0,
            final(file)@ == old(file)@ + device_tree(
                series_view(list@),
                old(file)@.len() as int,
                max_degree as int,
            ).1,
            node_storable(root@),
    {
        let ghost series = series_view(list@);
        let ghost items = series_items(series);
        let ghost start = file@.len() as int;
        let ghost base = file@;
        let mut entries: Vec<MetadataIndexEntry> = Vec::new();
        let mut j: usize = 0;
        proof {
            assert(items.take(0) =~= Seq::<Item>::empty());
            assert(entries_view(entries@) =~= placed(items.take(0), start));
            assert(file@ =~= base + joined(items.take(0)));
        }
        while j < list.len()
            invariant
                j <= list@.len(),
                series == series_view(list@),
                items == series_items(series),
                start == base.len(),
                forall|k: int|
                    0 <= k < list@.len() ==> (#[trigger] list@[k])@.measurement_id.len()
                        <= MAX_NAME_LENGTH,
                entries_view(entries@) == placed(items.take(j as int), start),
                file@ == base + joined(items.take(j as int)),
            decreases list@.len() - j,
        {
            let ghost held = entries_view(entries@);
            assert(series[j as int] == list@[j as int]@);
            let entry = MetadataIndexEntry {
                name: list[j].get_measurement_id(),
                offset: file.len() as u64,
            };
            entries.push(entry);
            list[j].serialize(file);
            proof {
                assert(items.take(j + 1).drop_last() =~= items.take(j as int));
                assert(items.take(j + 1).last() == items[j as int]);
                assert(entries_view(entries@) =~= held.push(entry@));
                assert(entries_view(entries@) =~= placed(items.take(j + 1), start));
                assert(file@ =~= base + joined(items.take(j + 1)));
            }
            j = j + 1;
        }
        proof {
            assert(items.take(j as int) =~= items);
            lemma_placed(items, start);
            let placed_entries = placed(items, start);
            assert forall|k: int| 0 <= k < placed_entries.len() implies (
            #[trigger] placed_entries[k]).name.len() <= MAX_NAME_LENGTH by {
                assert(series[k] == list@[k]@);
            }
            lemma_queue_from_entries(
                placed_entries,
                file@.len() as u64,
                MetadataIndexNodeType::LeafMeasurement,
                max_degree as int,
            );
        }
        let queue = chunk_entries(
            &entries,
            file.len() as u64,
            MetadataIndexNodeType::LeafMeasurement,
            max_degree,
        );
        let root = Self::generate_root_node(
            queue,
            file,
            MetadataIndexNodeType::InternalMeasurement,
            max_degree,
        );
        proof {
            assert(file@ =~= old(file)@ + device_tree(series, start, max_degree as int).1);
        }
        root
    }

    /// Writes the index of a file: the metadata of the series of each
    /// device with the nodes above them, then the roots of the devices with
    /// the nodes above them, and returns the root of it all.
    pub fn construct_metadata_index(
        device_timeseries_metadata_map: &SortedMap<Vec<TimeSeriesMetadata>>,
        file: &mut Vec<u8>,
        max_degree: usize,
    ) -> (root: MetadataIndexNode)
        requires
            device_timeseries_metadata_map.keys@.len()
                == device_timeseries_metadata_map.values@.len(),
            max_degree >= 2,
            devices_storable(devices_view(device_timeseries_metadata_map)),
        ensures
            root@ == constructed(
                devices_view(device_timeseries_metadata_map),
                old(file)@.len() as int,
                max_degree as int,
            ).0,
            final(file)@ == old(file)@ + constructed(
                devices_view(device_timeseries_metadata_map),
                old(file)@.len() as int,
                max_degree as int,
            ).1,
            node_storable(root@),
    {
        let map = device_timeseries_metadata_map;
        let ghost devices = devices_view(map);
        let ghost origin = file@.len() as int;
        let ghost degree = max_degree as int;
        let mut names: Vec<Vec<u8>> = Vec::new();
        let mut roots: Vec<MetadataIndexNode> = Vec::new();
        let mut d: usize = 0;
        proof {
            assert(devices.take(0) =~= Seq::empty());
            assert(roots_view(names@, roots@) =~= device_trees(devices.take(0), origin, degree).0);
            assert(file@ =~= old(file)@ + device_trees(devices.take(0), origin, degree).1);
        }
        while d < map.keys.len()
            invariant
                d <= map.keys@.len(),
                map.keys@.len() == map.values@.len(),
                max_degree >= 2,
                degree == max_degree as int,
                devices == devices_view(map),
                devices_storable(devices),
                origin == old(file)@.len(),
                names@.len() == roots@.len(),
                roots_view(names@, roots@) == device_trees(devices.take(d as int), origin, degree).0,
                file@ == old(file)@ + device_trees(devices.take(d as int), origin, degree).1,
                forall|k: int|
                    0 <= k < roots@.len() ==> node_storable((#[trigger] roots@[k])@) && names@[k]@.len()
                        <= MAX_NAME_LENGTH,
            decreases map.keys@.len() - d,
        {
            let list = &map.values[d];
            let ghost before = device_trees(devices.take(d as int), origin, degree);
            let ghost held = roots_view(names@, roots@);
            proof {
                assert(devices.take(d + 1).drop_last() =~= devices.take(d as int));
                assert(devices.take(d + 1).last() == devices[d as int]);
                assert(devices[d as int].1 == series_view(list@));
                assert(devices[d as int].0 == map.keys@[d as int]@);
                assert(devices[d as int].0.len() <= MAX_NAME_LENGTH);
                assert(file@.len() == origin + before.1.len());
                if list@.len() == 0 {
                    assert(device_trees(devices.take(d + 1), origin, degree) == before);
                }
            }
            if list.len() > 0 {
                proof {
                    assert forall|j: int| 0 <= j < list@.len() implies (
                    #[trigger] list@[j])@.measurement_id.len() <= MAX_NAME_LENGTH by {
                        assert(devices[d as int].1[j] == list@[j]@);
                    }
                }
                let root = Self::construct_device_index(list, file, max_degree);
                let name = copy_name(&map.keys[d]);
                proof {
                    assert(file@ =~= old(file)@ + device_trees(
                        devices.take(d + 1),
                        origin,
                        degree,
                    ).1);
                }
                let ghost old_names = names@;
                let ghost old_roots = roots@;
                proof {
                    assert(name@.len() <= MAX_NAME_LENGTH);
                }
                names.push(name);
                roots.push(root);
                proof {
                    assert(roots_view(names@, roots@) =~= held.push((name@, root@)));
                    assert forall|k: int| 0 <= k < roots@.len() implies node_storable(
                        (#[trigger] roots@[k])@,
                    ) && names@[k]@.len() <= MAX_NAME_LENGTH by {
                        if k < old_roots.len() {
                            assert(roots@[k] == old_roots[k]);
                            assert(names@[k] == old_names[k]);
                        }
                    }
                    assert(roots_view(names@, roots@) == device_trees(
                        devices.take(d + 1),
                        origin,
                        degree,
                    ).0);
                }
            }
            d = d + 1;
        }
        proof {
            assert(devices.take(d as int) =~= devices);
        }
        let ghost trees = device_trees(devices, origin, degree);
        let ghost items = root_items(trees.0);
        let ghost start = file@.len() as int;
        let ghost base = file@;
        let mut entries: Vec<MetadataIndexEntry> = Vec::new();
        let mut k: usize = 0;
        proof {
            assert(items.take(0) =~= Seq::<Item>::empty());
            assert(entries_view(entries@) =~= placed(items.take(0), start));
            assert(file@ =~= base + joined(items.take(0)));
        }
        while k < roots.len()
            invariant
                k <= roots@.len(),
                names@.len() == roots@.len(),
                trees.0 == roots_view(names@, roots@),
                items == root_items(trees.0),
                start == base.len(),
                forall|n: int|
                    0 <= n < roots@.len() ==> node_storable((#[trigger] roots@[n])@) && names@[n]@.len()
                        <= MAX_NAME_LENGTH,
                entries_view(entries@) == placed(items.take(k as int), start),
                file@ == base + joined(items.take(k as int)),
            decreases roots@.len() - k,
        {
            let ghost held = entries_view(entries@);
            assert(trees.0[k as int] == (names@[k as int]@, roots@[k as int]@));
            let entry = MetadataIndexEntry { name: copy_name(&names[k]), offset: file.len() as u64 };
            entries.push(entry);
            roots[k].serialize(file);
            proof {
                assert(items.take(k + 1).drop_last() =~= items.take(k as int));
                assert(items.take(k + 1).last() == items[k as int]);
                assert(entries_view(entries@) =~= held.push(entry@));
                assert(entries_view(entries@) =~= placed(items.take(k + 1), start));
                assert(file@ =~= base + joined(items.take(k + 1)));
            }
            k = k + 1;
        }
        proof {
            assert(items.take(k as int) =~= items);
            assert(file@ =~= old(file)@ + (trees.1 + joined(items)));
        }
        proof {
            lemma_placed(items, start);
            let placed_entries = placed(items, start);
            assert forall|n: int| 0 <= n < placed_entries.len() implies (
            #[trigger] placed_entries[n]).name.len() <= MAX_NAME_LENGTH by {
                assert(items[n].0 == names@[n]@);
                assert(node_storable(roots@[n]@));
            }
        }
        if roots.len() <= max_degree {
            MetadataIndexNode {
                children: entries,
                end_offset: file.len() as u64,
                node_type: MetadataIndexNodeType::LeafDevice,
            }
        } else {
            proof {
                let placed_entries = placed(items, start);
                lemma_queue_from_entries(
                    placed_entries,
                    file@.len() as u64,
                    MetadataIndexNodeType::LeafDevice,
                    degree,
                );
            }
            let queue = chunk_entries(
                &entries,
                file.len() as u64,
                MetadataIndexNodeType::LeafDevice,
                max_degree,
            );
            let root = Self::generate_root_node(
                queue,
                file,
                MetadataIndexNodeType::InternalDevice,
                max_degree,
            );
            proof {
                assert(file@ =~= old(file)@ + constructed(devices, origin, degree).1);
            }
            root
        }
    }
}

} // verus!
