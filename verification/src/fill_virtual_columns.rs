//! Filling the virtual columns of the blocks that pass through a pipeline.
use crate::error::ErrorCode;
use std::collections::BTreeMap;
use std::collections::VecDeque;
use vstd::prelude::*;

verus! {

/// Index of a field in a schema.
pub type FieldIndex = usize;

/// Which block of a table a block of a pipeline is.
#[derive(Debug, PartialEq, Eq)]
pub struct BlockMetaIndex {
    /// Number of the block's segment.
    pub segment_id: usize,
    /// Number of the block in its segment.
    pub block_id: usize,
    /// Where the block is.
    pub block_location: String,
    /// Where its segment is.
    pub segment_location: String,
    /// Where the snapshot is that it was read from.
    pub snapshot_location: Option<String>,
}

/// What the sender of a block says of it.
#[derive(Debug, PartialEq, Eq)]
pub enum BlockMeta {
    /// Which block of a table it is.
    Index(BlockMetaIndex),
    /// Anything else.
    Other,
}

/// A block of rows: some columns, and what the sender says of it.
#[derive(Debug, PartialEq, Eq)]
pub struct DataBlock<C> {
    /// The columns.
    pub columns: Vec<C>,
    /// The number of rows.
    pub num_rows: usize,
    /// What the sender says.
    pub meta: Option<BlockMeta>,
}

/// A block, by what it holds.
#[verifier::ext_equal]
pub struct BlockView<C> {
    pub columns: Seq<C>,
    pub num_rows: usize,
    pub meta: Option<BlockMeta>,
}

impl<C> View for DataBlock<C> {
    type V = BlockView<C>;

    open spec fn view(&self) -> BlockView<C> {
        BlockView { columns: self.columns@, num_rows: self.num_rows, meta: self.meta }
    }
}

/// What the values of a virtual column are made of.
#[derive(Debug, PartialEq, Eq)]
pub struct VirtualColumnMeta {
    /// Number of the block's segment.
    pub segment_id: usize,
    /// Number of the block in its segment.
    pub block_id: usize,
    /// Where the block is.
    pub block_location: String,
    /// Where its segment is.
    pub segment_location: String,
    /// Where the snapshot is that it was read from.
    pub snapshot_location: String,
}

/// What the values of the virtual columns of a block are made of.
pub open spec fn column_meta(index: BlockMetaIndex) -> VirtualColumnMeta
    recommends
        index.snapshot_location is Some,
{
    VirtualColumnMeta {
        segment_id: index.segment_id,
        block_id: index.block_id,
        block_location: index.block_location,
        segment_location: index.segment_location,
        snapshot_location: index.snapshot_location->0,
    }
}

/// How the two ports of the processor stand.
#[derive(Clone, Copy, Debug, PartialEq, Eq, Structural)]
pub struct PortStatus {
    /// Nobody wants more from the output.
    pub output_finished: bool,
    /// The output can take a block.
    pub output_can_push: bool,
    /// The input holds a block.
    pub input_has_data: bool,
    /// The input gets no more blocks.
    pub input_finished: bool,
}

/// What is done to the ports.
#[derive(Debug, PartialEq, Eq)]
pub enum PortCommand<C> {
    /// Tell the input that no more is wanted.
    FinishInput,
    /// Tell the input that nothing is wanted for now.
    SetNotNeedData,
    /// Push a block to the output.
    PushData(DataBlock<C>),
    /// Tell the output that no more comes.
    FinishOutput,
    /// Tell the input that a block is wanted.
    SetNeedData,
}

/// What the processor is to do, or waits for.
#[derive(Clone, Copy, Debug, PartialEq, Eq, Structural)]
pub enum Event {
    /// It waits for a block.
    NeedData,
    /// It waits for its output to be consumed.
    NeedConsume,
    /// It is to process what it has.
    Sync,
    /// It is done.
    Finished,
}

/// How the processor goes on.
#[derive(Debug, PartialEq, Eq)]
pub enum EventStep<C> {
    /// Do this to the ports; then this is the event.
    Return {
        /// What is done.
        command: PortCommand<C>,
        /// The event.
        event: Event,
    },
    /// Pull the block of the input, and hand it to [`FillVirtualColumnProcessor::on_pulled`].
    Pull,
}

/// Whether these are the keys of the map, each once, the smaller first.
pub open spec fn ascending_keys<V>(map: Map<usize, V>, keys: Seq<usize>) -> bool {
    &&& forall|i: int, j: int| 0 <= i < j < keys.len() ==> keys[i] < keys[j]
    &&& forall|key: usize| map.dom().contains(key) <==> keys.contains(key)
}

/// Whether these are the values of the virtual columns of a block, one column for each virtual
/// column, in the order of the field indices.
pub open spec fn generated<V, C, F: Fn(&V, &VirtualColumnMeta, usize) -> C>(
    virtual_columns: Map<usize, V>,
    generate: F,
    meta: VirtualColumnMeta,
    num_rows: usize,
    keys: Seq<usize>,
    columns: Seq<C>,
) -> bool {
    &&& ascending_keys(virtual_columns, keys)
    &&& columns.len() == keys.len()
    &&& forall|i: int|
        0 <= i < columns.len() ==> call_ensures(
            generate,
            (&virtual_columns[keys[i]], &meta, num_rows),
            #[trigger] columns[i],
        )
}

/// Appends the virtual columns to the blocks that pass.
#[derive(Debug)]
pub struct FillVirtualColumnProcessor<V, C> {
    virtual_columns: BTreeMap<FieldIndex, V>,
    data_blocks: VecDeque<(BlockMetaIndex, DataBlock<C>)>,
    output_data: Option<DataBlock<C>>,
}

impl<V, C> FillVirtualColumnProcessor<V, C> {
    /// The virtual columns, each with the index of its field.
    pub closed spec fn virtual_columns(self) -> Map<usize, V> {
        self.virtual_columns@
    }

    /// The blocks that were taken in, and which block of the table each is.
    pub closed spec fn data_blocks(self) -> Seq<(BlockMetaIndex, BlockView<C>)> {
        self.data_blocks@.map_values(
            |entry: (BlockMetaIndex, DataBlock<C>)| (entry.0, entry.1@),
        )
    }

    /// The block that waits to be pushed.
    pub closed spec fn output_data(self) -> Option<BlockView<C>> {
        match self.output_data {
            Some(block) => Some(block@),
            None => None,
        }
    }

    /// A processor that has taken in nothing.
    pub fn create(virtual_columns: BTreeMap<FieldIndex, V>) -> (processor:
        FillVirtualColumnProcessor<V, C>)
        ensures
            processor.virtual_columns() == virtual_columns@,
            processor.data_blocks() == Seq::<(BlockMetaIndex, BlockView<C>)>::empty(),
            processor.output_data() is None,
    {
        let processor = FillVirtualColumnProcessor {
            virtual_columns,
            data_blocks: VecDeque::new(),
            output_data: None,
        };
        assert(processor.data_blocks() =~= Seq::empty());
        processor
    }

    /// The name of the processor.
    pub fn name(&self) -> (name: String)
        ensures
            name@ == "FillVirtualColumnProcessor"@,
    {
        "FillVirtualColumnProcessor".to_owned()
    }

    /// Decides what to do, from how the ports stand. A finished output ends the processor; an
    /// output that can take nothing holds it up; a block that waits is pushed before another is
    /// pulled; and a block that is there is pulled before the processor asks for more, or ends.
    pub fn event(&mut self, ports: PortStatus) -> (step: EventStep<C>)
        ensures
            final(self).virtual_columns() == old(self).virtual_columns(),
            final(self).data_blocks() == old(self).data_blocks(),
            !(step is Return && step->command is PushData) ==> final(self).output_data() == old(
                self,
            ).output_data(),
            if ports.output_finished {
                step == (EventStep::<C>::Return {
                    command: PortCommand::FinishInput,
                    event: Event::Finished,
                })
            } else if !ports.output_can_push {
                step == (EventStep::<C>::Return {
                    command: PortCommand::SetNotNeedData,
                    event: Event::NeedConsume,
                })
            } else if old(self).output_data() is Some {
                &&& step matches EventStep::Return { command, event }
                &&& command matches PortCommand::PushData(block)
                &&& old(self).output_data() == Some(block@)
                &&& event == Event::NeedConsume
                &&& final(self).output_data() is None
            } else if ports.input_has_data {
                step == EventStep::<C>::Pull
            } else if ports.input_finished {
                step == (EventStep::<C>::Return {
                    command: PortCommand::FinishOutput,
                    event: Event::Finished,
                })
            } else {
                step == (EventStep::<C>::Return {
                    command: PortCommand::SetNeedData,
                    event: Event::NeedData,
                })
            },
    {
        if ports.output_finished {
            return EventStep::Return { command: PortCommand::FinishInput, event: Event::Finished };
        }
        if !ports.output_can_push {
            return EventStep::Return {
                command: PortCommand::SetNotNeedData,
                event: Event::NeedConsume,
            };
        }
        if let Some(data_block) = self.output_data.take() {
            return EventStep::Return {
                command: PortCommand::PushData(data_block),
                event: Event::NeedConsume,
            };
        }
        if ports.input_has_data {
            return EventStep::Pull;
        }
        if ports.input_finished {
            return EventStep::Return { command: PortCommand::FinishOutput, event: Event::Finished };
        }
        EventStep::Return { command: PortCommand::SetNeedData, event: Event::NeedData }
    }

    /// Takes in the block that was pulled, behind those taken in before. Every block has to say
    /// which block of the table it is.
    pub fn on_pulled(&mut self, pulled: Result<DataBlock<C>, ErrorCode>) -> (event: Result<
        Event,
        ErrorCode,
    >)
        requires
            pulled matches Ok(block) ==> block.meta is Some && block.meta->0 is Index,
        ensures
            final(self).virtual_columns() == old(self).virtual_columns(),
            final(self).output_data() == old(self).output_data(),
            match pulled {
                Err(error) => {
                    &&& event == Err::<Event, ErrorCode>(error)
                    &&& final(self).data_blocks() == old(self).data_blocks()
                },
                Ok(block) => {
                    &&& event == Ok::<Event, ErrorCode>(Event::Sync)
                    &&& final(self).data_blocks() == old(self).data_blocks().push(
                        (block.meta->0->Index_0, BlockView { meta: None, ..block@ }),
                    )
                },
            },
    {
        match pulled {
            Err(error) => Err(error),
            Ok(block) => {
                let DataBlock { columns, num_rows, meta } = block;
                if let Some(BlockMeta::Index(block_meta)) = meta {
                    self.data_blocks.push_back(
                        (block_meta, DataBlock { columns, num_rows, meta: None }),
                    );
                    assert(self.data_blocks() =~= old(self).data_blocks().push(
                        (pulled->Ok_0.meta->0->Index_0, BlockView { meta: None, ..pulled->Ok_0@ }),
                    ));
                }
                Ok(Event::Sync)
            },
        }
    }
}

/// An increasing list of keys has the smaller first.
proof fn lemma_increasing(keys: Seq<usize>)
    requires
        vstd::std_specs::btree::increasing_seq(keys),
    ensures
        forall|i: int, j: int| 0 <= i < j < keys.len() ==> keys[i] < keys[j],
{
    broadcast use {
        vstd::std_specs::btree::group_btree_axioms,
        vstd::laws_cmp::group_laws_cmp,
    };

    assert forall|i: int, j: int| 0 <= i < j < keys.len() implies keys[i] < keys[j] by {
        assert(vstd::std_specs::cmp::OrdSpec::cmp_spec(&keys[i], &keys[j]) is Less);
    }
}

/// What processing does to the blocks that were taken in: the first gets the virtual columns
/// behind its own, and stays the first.
pub open spec fn filled<C>(
    blocks: Seq<(BlockMetaIndex, BlockView<C>)>,
    added: Seq<C>,
) -> Seq<(BlockMetaIndex, BlockView<C>)>
    recommends
        blocks.len() > 0,
{
    blocks.update(
        0,
        (blocks[0].0, BlockView { columns: blocks[0].1.columns + added, ..blocks[0].1 }),
    )
}

/// Whether one list is a copy of the other, made value by value.
pub open spec fn is_copy<C: Clone>(list: Seq<C>, copy: Seq<C>) -> bool {
    &&& copy.len() == list.len()
    &&& forall|i: int| 0 <= i < list.len() ==> cloned::<C>(list[i], #[trigger] copy[i])
}

impl<V, C: Clone> FillVirtualColumnProcessor<V, C> {
    /// Appends the virtual columns to the first block that was taken in, in the order of their
    /// field indices, with the values that `generate` makes for a block of its number of rows,
    /// and lets a copy of the block wait to be pushed. The copy says nothing of itself. The block
    /// stays the first. Without a block nothing is done.
    pub fn process<F: Fn(&V, &VirtualColumnMeta, usize) -> C>(&mut self, generate: F)
        requires
            old(self).data_blocks().len() > 0 ==> {
                let (index, block) = old(self).data_blocks()[0];
                &&& index.snapshot_location is Some
                &&& forall|key: usize| #[trigger]
                    old(self).virtual_columns().dom().contains(key) ==> call_requires(
                        generate,
                        (&old(self).virtual_columns()[key], &column_meta(index), block.num_rows),
                    )
            },
        ensures
            final(self).virtual_columns() == old(self).virtual_columns(),
            if old(self).data_blocks().len() == 0 {
                &&& final(self).data_blocks() == old(self).data_blocks()
                &&& final(self).output_data() == old(self).output_data()
            } else {
                let (index, block) = old(self).data_blocks()[0];
                &&& exists|keys: Seq<usize>, added: Seq<C>|
                    {
                        &&& #[trigger] generated(
                            old(self).virtual_columns(),
                            generate,
                            column_meta(index),
                            block.num_rows,
                            keys,
                            added,
                        )
                        &&& final(self).data_blocks() == filled(old(self).data_blocks(), added)
                    }
                &&& final(self).output_data() matches Some(output)
                &&& output.num_rows == block.num_rows
                &&& output.meta is None
                &&& is_copy(final(self).data_blocks()[0].1.columns, output.columns)
            },
    {
        broadcast use {
            vstd::std_specs::btree::group_btree_axioms,
            vstd::laws_cmp::group_laws_cmp,
        };

        if let Some((block_meta, mut data_block)) = self.data_blocks.pop_front() {
            let ghost (index, block) = old(self).data_blocks()[0];
            let ghost queue = old(self).data_blocks();
            let num_rows: usize = data_block.num_rows;
            let virtual_column_meta = VirtualColumnMeta {
                segment_id: block_meta.segment_id,
                block_id: block_meta.block_id,
                block_location: block_meta.block_location.clone(),
                segment_location: block_meta.segment_location.clone(),
                snapshot_location: block_meta.snapshot_location.clone().unwrap(),
            };
            assert(virtual_column_meta == column_meta(index));
            let values = self.virtual_columns.values();
            let ghost keys: Seq<usize> = choose|keys: Seq<usize>|
                {
                    &&& vstd::std_specs::btree::increasing_seq(keys)
                    &&& keys.to_set() == self.virtual_columns@.dom()
                    &&& keys.no_duplicates()
                    &&& vstd::std_specs::iter::IteratorSpec::remaining(&values) == keys.map(
                        |i: int, k| &self.virtual_columns@[k],
                    )
                };
            let ghost map = self.virtual_columns@;
            let ghost before = data_block.columns@;
            let ghost mut added: Seq<C> = Seq::empty();
            proof {
                lemma_increasing(keys);
                assert(map == old(self).virtual_columns());
                assert(num_rows == block.num_rows);
                assert forall|key: usize| map.dom().contains(key) <==> keys.contains(key) by {
                    assert(map.dom().contains(key) <==> keys.to_set().contains(key));
                }
                assert(ascending_keys(map, keys));
            }
            for virtual_column in it: values
                invariant
                    it.seq() == keys.map(|i: int, k| &map[k]),
                    ascending_keys(map, keys),
                    virtual_column_meta == column_meta(index),
                    forall|key: usize| #[trigger]
                        map.dom().contains(key) ==> call_requires(
                            generate,
                            (&map[key], &column_meta(index), num_rows),
                        ),
                    added.len() == it.index(),
                    forall|i: int|
                        0 <= i < added.len() ==> call_ensures(
                            generate,
                            (&map[keys[i]], &column_meta(index), num_rows),
                            #[trigger] added[i],
                        ),
                    data_block.columns@ == before + added,
                    data_block.num_rows == num_rows,
                    data_block.meta == block.meta,
            {
                proof {
                    let key = keys[it.index()];
                    assert(keys.contains(key));
                    assert(map.dom().contains(key));
                }
                let column = generate(virtual_column, &virtual_column_meta, num_rows);
                data_block.columns.push(column);
                proof {
                    added = added.push(column);
                }
                assert(data_block.columns@ =~= before + added);
            }
            self.output_data = Some(
                DataBlock {
                    columns: data_block.columns.clone(),
                    num_rows: data_block.num_rows,
                    meta: None,
                },
            );
            self.data_blocks.push_front((block_meta, data_block));
            proof {
                assert(generated(map, generate, column_meta(index), num_rows, keys, added));
                assert(self.data_blocks() =~= filled(queue, added));
            }
        }
    }
}

/// The order of the virtual columns is fixed by their field indices.
pub proof fn law_key_order_is_unique<V>(map: Map<usize, V>, keys: Seq<usize>, others: Seq<usize>)
    requires
        ascending_keys(map, keys),
        ascending_keys(map, others),
    ensures
        keys == others,
{
    if keys.len() <= others.len() {
        lemma_same_order(map, keys, others, keys.len() as int);
        if keys.len() < others.len() {
            let key = others[keys.len() as int];
            assert(others.contains(key));
            assert(keys.contains(key));
            let k = choose|k: int| 0 <= k < keys.len() && keys[k] == key;
            assert(others[k] == keys[k]);
        }
    } else {
        lemma_same_order(map, others, keys, others.len() as int);
        let key = keys[others.len() as int];
        assert(keys.contains(key));
        assert(others.contains(key));
        let k = choose|k: int| 0 <= k < others.len() && others[k] == key;
        assert(keys[k] == others[k]);
    }
    assert(keys =~= others);
}

proof fn lemma_same_order<V>(
    map: Map<usize, V>,
    keys: Seq<usize>,
    others: Seq<usize>,
    count: int,
)
    requires
        ascending_keys(map, keys),
        ascending_keys(map, others),
        0 <= count <= keys.len() <= others.len(),
    ensures
        forall|i: int| 0 <= i < count ==> keys[i] == others[i],
    decreases count,
{
    if count > 0 {
        let last = count - 1;
        lemma_same_order(map, keys, others, last);
        assert(keys.contains(keys[last]));
        assert(others.contains(keys[last]));
        let k = choose|k: int| 0 <= k < others.len() && others[k] == keys[last];
        assert(k >= last) by {
            if k < last {
                assert(keys[k] == others[k]);
            }
        }
        assert(others.contains(others[last]));
        assert(keys.contains(others[last]));
        let j = choose|j: int| 0 <= j < keys.len() && keys[j] == others[last];
        assert(j >= last) by {
            if j < last {
                assert(others[j] == keys[j]);
            }
        }
    }
}

/// Processing fills the first block only, behind the columns it has, and loses no block.
pub proof fn law_processing_fills_the_first_block<C>(
    blocks: Seq<(BlockMetaIndex, BlockView<C>)>,
    added: Seq<C>,
)
    requires
        blocks.len() > 0,
    ensures
        filled(blocks, added).len() == blocks.len(),
        filled(blocks, added)[0].0 == blocks[0].0,
        filled(blocks, added)[0].1 == (BlockView {
            columns: blocks[0].1.columns + added,
            ..blocks[0].1
        }),
        filled(blocks, added).drop_first() == blocks.drop_first(),
{
    assert(filled(blocks, added).drop_first() =~= blocks.drop_first());
}

/// The first block stays the first: processing again appends the virtual columns to it again,
/// whatever was taken in between.
pub proof fn law_first_block_stays_first<C>(
    blocks: Seq<(BlockMetaIndex, BlockView<C>)>,
    added: Seq<C>,
    next: (BlockMetaIndex, BlockView<C>),
    added_again: Seq<C>,
)
    requires
        blocks.len() > 0,
    ensures
        filled(filled(blocks, added).push(next), added_again)[0] == (
            blocks[0].0,
            BlockView { columns: blocks[0].1.columns + added + added_again, ..blocks[0].1 },
        ),
{
}

/// Whether metadata says of a block what the block's index says: every field is that of the index.
pub open spec fn says_which_block(meta: VirtualColumnMeta, index: BlockMetaIndex) -> bool {
    &&& meta.segment_id == index.segment_id
    &&& meta.block_id == index.block_id
    &&& meta.block_location@ == index.block_location@
    &&& meta.segment_location@ == index.segment_location@
    &&& index.snapshot_location is Some
    &&& meta.snapshot_location@ == index.snapshot_location->0@
}

/// What the virtual columns of a block are made of says which block it is, and so is different for
/// blocks that are not the same.
pub proof fn law_metadata_says_which_block(index: BlockMetaIndex, other: BlockMetaIndex)
    requires
        index.snapshot_location is Some,
        other.snapshot_location is Some,
    ensures
        says_which_block(column_meta(index), index),
        column_meta(index) == column_meta(other) ==> {
            &&& index.segment_id == other.segment_id
            &&& index.block_id == other.block_id
            &&& index.block_location@ == other.block_location@
            &&& index.segment_location@ == other.segment_location@
            &&& index.snapshot_location->0@ == other.snapshot_location->0@
        },
{
}

/// Whether columns are the virtual columns of a block: one for each, in the order of the field
/// indices, each made by the generator from its own virtual column, from metadata that says which
/// block it is, and for the number of rows of the block.
pub open spec fn are_virtual_columns<V, C, F: Fn(&V, &VirtualColumnMeta, usize) -> C>(
    virtual_columns: Map<usize, V>,
    generate: F,
    index: BlockMetaIndex,
    num_rows: usize,
    columns: Seq<C>,
) -> bool {
    exists|keys: Seq<usize>|
        {
            &&& keys.len() == columns.len()
            &&& forall|i: int, j: int| 0 <= i < j < keys.len() ==> keys[i] < keys[j]
            &&& forall|key: usize|
                virtual_columns.dom().contains(key) <==> #[trigger] keys.contains(key)
            &&& forall|i: int|
                0 <= i < keys.len() ==> made_for_block(
                    generate,
                    virtual_columns[#[trigger] keys[i]],
                    index,
                    num_rows,
                    columns[i],
                )
        }
}

/// Whether a column was made by the generator for a block.
pub open spec fn made_for_block<V, C, F: Fn(&V, &VirtualColumnMeta, usize) -> C>(
    generate: F,
    virtual_column: V,
    index: BlockMetaIndex,
    num_rows: usize,
    column: C,
) -> bool {
    exists|meta: VirtualColumnMeta| #[trigger]
        says_which_block(meta, index) && call_ensures(
            generate,
            (&virtual_column, &meta, num_rows),
            column,
        )
}

proof fn lemma_generated<V, C, F: Fn(&V, &VirtualColumnMeta, usize) -> C>(
    virtual_columns: Map<usize, V>,
    generate: F,
    index: BlockMetaIndex,
    num_rows: usize,
    keys: Seq<usize>,
    columns: Seq<C>,
)
    requires
        index.snapshot_location is Some,
        generated(virtual_columns, generate, column_meta(index), num_rows, keys, columns),
    ensures
        are_virtual_columns(virtual_columns, generate, index, num_rows, columns),
{
    assert(says_which_block(column_meta(index), index));
    assert forall|i: int| 0 <= i < keys.len() implies made_for_block(
        generate,
        virtual_columns[#[trigger] keys[i]],
        index,
        num_rows,
        columns[i],
    ) by {
        assert(call_ensures(
            generate,
            (&virtual_columns[keys[i]], &column_meta(index), num_rows),
            columns[i],
        ));
    }
}

/// Processing puts the virtual columns of the first block behind the columns it has, and changes
/// nothing else of it, nor any other block. What waits to be pushed then has as many rows, a copy
/// of each of these columns, and says nothing of itself.
pub proof fn law_first_block_gets_its_virtual_columns<
    V,
    C: Clone,
    F: Fn(&V, &VirtualColumnMeta, usize) -> C,
>(processor: &mut FillVirtualColumnProcessor<V, C>, generate: F)
    requires
        call_ensures(
            FillVirtualColumnProcessor::<V, C>::process::<F>,
            (processor, generate),
            (),
        ),
        old(processor).data_blocks().len() > 0,
        old(processor).data_blocks()[0].0.snapshot_location is Some,
    ensures
        final(processor).virtual_columns() == old(processor).virtual_columns(),
        final(processor).data_blocks().len() == old(processor).data_blocks().len(),
        forall|i: int|
            0 < i < old(processor).data_blocks().len() ==>
                #[trigger] final(processor).data_blocks()[i] == old(processor).data_blocks()[i],
        ({
            let (index, block) = old(processor).data_blocks()[0];
            let (index_after, block_after) = final(processor).data_blocks()[0];
            let n = block.columns.len() as int;
            &&& index_after == index
            &&& block_after.num_rows == block.num_rows
            &&& block_after.columns.len() >= n
            &&& block_after.columns.take(n) == block.columns
            &&& are_virtual_columns(
                old(processor).virtual_columns(),
                generate,
                index,
                block.num_rows,
                block_after.columns.skip(n),
            )
            &&& final(processor).output_data() is Some
            &&& final(processor).output_data()->0.num_rows == block.num_rows
            &&& final(processor).output_data()->0.meta is None
            &&& final(processor).output_data()->0.columns.len() == block_after.columns.len()
            &&& forall|c: int|
                0 <= c < block_after.columns.len() ==> cloned::<C>(
                    block_after.columns[c],
                    #[trigger] final(processor).output_data()->0.columns[c],
                )
        }),
{
    let (index, block) = old(processor).data_blocks()[0];
    let blocks = old(processor).data_blocks();
    let (keys, added): (Seq<usize>, Seq<C>) = choose|keys: Seq<usize>, added: Seq<C>|
        {
            &&& #[trigger] generated(
                old(processor).virtual_columns(),
                generate,
                column_meta(index),
                block.num_rows,
                keys,
                added,
            )
            &&& final(processor).data_blocks() == filled(blocks, added)
        };
    lemma_generated(
        old(processor).virtual_columns(),
        generate,
        index,
        block.num_rows,
        keys,
        added,
    );
    let after = filled(blocks, added)[0].1.columns;
    assert(after.take(block.columns.len() as int) =~= block.columns);
    assert(after.skip(block.columns.len() as int) =~= added);
}

/// A block that a new processor takes in and processes comes out with its own columns first and
/// its virtual columns behind them, each a copy, with as many rows, and says nothing of itself.
pub proof fn law_block_comes_out_with_its_virtual_columns<
    V,
    C: Clone,
    F: Fn(&V, &VirtualColumnMeta, usize) -> C,
>(
    virtual_columns: BTreeMap<FieldIndex, V>,
    created: FillVirtualColumnProcessor<V, C>,
    pulling: &mut FillVirtualColumnProcessor<V, C>,
    block: DataBlock<C>,
    event: Result<Event, ErrorCode>,
    processing: &mut FillVirtualColumnProcessor<V, C>,
    generate: F,
    pushing: &mut FillVirtualColumnProcessor<V, C>,
    ports: PortStatus,
    step: EventStep<C>,
)
    requires
        call_ensures(FillVirtualColumnProcessor::<V, C>::create, (virtual_columns,), created),
        *old(pulling) == created,
        call_ensures(
            FillVirtualColumnProcessor::<V, C>::on_pulled,
            (pulling, Ok(block)),
            event,
        ),
        block.meta is Some,
        block.meta->0 is Index,
        block.meta->0->Index_0.snapshot_location is Some,
        *old(processing) == *final(pulling),
        call_ensures(
            FillVirtualColumnProcessor::<V, C>::process::<F>,
            (processing, generate),
            (),
        ),
        *old(pushing) == *final(processing),
        call_ensures(FillVirtualColumnProcessor::<V, C>::event, (pushing, ports), step),
        !ports.output_finished,
        ports.output_can_push,
    ensures
        event is Ok,
        event->Ok_0 is Sync,
        step is Return,
        step->event is NeedConsume,
        step->command is PushData,
        step->command->PushData_0.num_rows == block.num_rows,
        step->command->PushData_0.meta is None,
        exists|columns: Seq<C>|
            {
                &&& #[trigger] are_virtual_columns(
                    virtual_columns@,
                    generate,
                    block.meta->0->Index_0,
                    block.num_rows,
                    columns,
                )
                &&& are_copies(block.columns@ + columns, step->command->PushData_0.columns@)
            },
        final(pushing).output_data() is None,
{
    let queue = old(processing).data_blocks();
    assert(queue.len() == 1);
    assert(queue[0].0 == block.meta->0->Index_0);
    assert(queue[0].1.columns == block.columns@);
    law_first_block_gets_its_virtual_columns(processing, generate);
    let after = final(processing).data_blocks()[0].1.columns;
    let n = block.columns@.len() as int;
    let columns = after.skip(n);
    let out = step->command->PushData_0;
    assert(final(processing).output_data() == Some(out@));
    assert(block.columns@ + columns =~= after);
    assert forall|c: int| 0 <= c < after.len() implies cloned::<C>(
        after[c],
        #[trigger] out.columns@[c],
    ) by {
        assert(cloned::<C>(after[c], out@.columns[c]));
    }
    assert(are_copies(block.columns@ + columns, out.columns@));
}

/// Whether columns are copies of others, one for each and in the same order.
pub open spec fn are_copies<C: Clone>(columns: Seq<C>, copies: Seq<C>) -> bool {
    &&& copies.len() == columns.len()
    &&& forall|c: int| 0 <= c < columns.len() ==> cloned::<C>(columns[c], #[trigger] copies[c])
}

/// A processor goes by the most pressing of what its ports and its own block call for: the end of
/// the output, an output that is full, a block that waits, a block that is there, the end of the
/// input. A block that waits is pushed as it is, once, and nothing else is pushed.
pub proof fn law_processor_goes_by_what_presses<V, C>(
    processor: &mut FillVirtualColumnProcessor<V, C>,
    ports: PortStatus,
    step: EventStep<C>,
)
    requires
        call_ensures(FillVirtualColumnProcessor::<V, C>::event, (processor, ports), step),
    ensures
        final(processor).virtual_columns() == old(processor).virtual_columns(),
        final(processor).data_blocks() == old(processor).data_blocks(),
        (step is Return && step->command is FinishInput) == ports.output_finished,
        (step is Return && step->command is SetNotNeedData) == (!ports.output_finished
            && !ports.output_can_push),
        (step is Return && step->command is PushData) == (!ports.output_finished
            && ports.output_can_push && old(processor).output_data() is Some),
        step is Pull == (!ports.output_finished && ports.output_can_push && old(
            processor,
        ).output_data() is None && ports.input_has_data),
        (step is Return && step->command is FinishOutput) == (!ports.output_finished
            && ports.output_can_push && old(processor).output_data() is None
            && !ports.input_has_data && ports.input_finished),
        (step is Return && step->command is SetNeedData) == (!ports.output_finished
            && ports.output_can_push && old(processor).output_data() is None
            && !ports.input_has_data && !ports.input_finished),
        step matches EventStep::Return { command, event } ==> {
            &&& event is Finished == (command is FinishInput || command is FinishOutput)
            &&& event is NeedConsume == (command is SetNotNeedData || command is PushData)
            &&& event is NeedData == command is SetNeedData
            &&& command matches PortCommand::PushData(block) ==> {
                &&& old(processor).output_data()->0.columns == block.columns@
                &&& old(processor).output_data()->0.num_rows == block.num_rows
                &&& old(processor).output_data()->0.meta == block.meta
                &&& final(processor).output_data() is None
            }
            &&& !(command is PushData) ==> final(processor).output_data() == old(
                processor,
            ).output_data()
        },
        step is Pull ==> final(processor).output_data() == old(processor).output_data(),
{
}

/// Blocks are taken in behind each other, each with what it says of itself taken off; an error is
/// handed on and takes in nothing.
pub proof fn law_blocks_are_taken_in_behind_each_other<V, C>(
    processor: &mut FillVirtualColumnProcessor<V, C>,
    pulled: Result<DataBlock<C>, ErrorCode>,
    event: Result<Event, ErrorCode>,
)
    requires
        call_ensures(FillVirtualColumnProcessor::<V, C>::on_pulled, (processor, pulled), event),
    ensures
        final(processor).virtual_columns() == old(processor).virtual_columns(),
        final(processor).output_data() == old(processor).output_data(),
        pulled matches Err(error) ==> {
            &&& event == Err::<Event, ErrorCode>(error)
            &&& final(processor).data_blocks() == old(processor).data_blocks()
        },
        pulled matches Ok(block) ==> {
            &&& event is Ok
            &&& event->Ok_0 is Sync
            &&& final(processor).data_blocks().drop_last() == old(processor).data_blocks()
            &&& final(processor).data_blocks().len() == old(processor).data_blocks().len() + 1
            &&& final(processor).data_blocks().last().0 == block.meta->0->Index_0
            &&& final(processor).data_blocks().last().1.columns == block.columns@
            &&& final(processor).data_blocks().last().1.num_rows == block.num_rows
            &&& final(processor).data_blocks().last().1.meta is None
        },
{
    if pulled is Ok {
        assert(final(processor).data_blocks().drop_last() =~= old(processor).data_blocks());
    }
}

/// Every processor has the same name, whatever it holds.
pub proof fn law_processors_share_their_name<V, C>(
    processor: FillVirtualColumnProcessor<V, C>,
    name: String,
)
    requires
        call_ensures(FillVirtualColumnProcessor::<V, C>::name, (&processor,), name),
    ensures
        name@ == "FillVirtualColumnProcessor"@,
{
}

} // verus!
