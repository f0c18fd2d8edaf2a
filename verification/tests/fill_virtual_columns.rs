use databend_query::error::{ErrorClass, ErrorCode};
use databend_query::fill_virtual_columns::{
    BlockMeta, BlockMetaIndex, DataBlock, Event, EventStep, FillVirtualColumnProcessor,
    PortCommand, PortStatus, VirtualColumnMeta,
};
use std::collections::BTreeMap;

type Processor = FillVirtualColumnProcessor<&'static str, String>;

fn processor() -> Processor {
    let mut columns = BTreeMap::new();
    columns.insert(9, "last");
    columns.insert(2, "first");
    columns.insert(5, "middle");
    FillVirtualColumnProcessor::create(columns)
}

fn block(name: &str, block_id: usize) -> DataBlock<String> {
    DataBlock {
        columns: vec![name.to_string()],
        num_rows: 4,
        meta: Some(BlockMeta::Index(BlockMetaIndex {
            segment_id: 1,
            block_id,
            block_location: "block".to_string(),
            segment_location: "segment".to_string(),
            snapshot_location: Some("snapshot".to_string()),
        })),
    }
}

fn generate(column: &&'static str, meta: &VirtualColumnMeta, num_rows: usize) -> String {
    format!(
        "{}:{}:{}:{}:{}:{}:{}",
        column,
        meta.segment_id,
        meta.block_id,
        meta.block_location,
        meta.segment_location,
        meta.snapshot_location,
        num_rows
    )
}

fn ready() -> PortStatus {
    PortStatus {
        output_finished: false,
        output_can_push: true,
        input_has_data: false,
        input_finished: false,
    }
}

fn step(command: PortCommand<String>, event: Event) -> EventStep<String> {
    EventStep::Return { command, event }
}

fn pushed(processor: &mut Processor) -> DataBlock<String> {
    match processor.event(ready()) {
        EventStep::Return { command: PortCommand::PushData(block), event } => {
            assert_eq!(event, Event::NeedConsume);
            block
        }
        other => panic!("{:?}", other),
    }
}

#[test]
fn the_processor_has_its_name() {
    assert_eq!(processor().name(), "FillVirtualColumnProcessor");
}

#[test]
fn a_finished_output_ends_the_processor() {
    let mut p = processor();
    let ports = PortStatus { output_finished: true, input_has_data: true, ..ready() };
    assert_eq!(p.event(ports), step(PortCommand::FinishInput, Event::Finished));
}

#[test]
fn a_full_output_holds_the_processor_up() {
    let mut p = processor();
    let ports = PortStatus { output_can_push: false, input_has_data: true, ..ready() };
    assert_eq!(p.event(ports), step(PortCommand::SetNotNeedData, Event::NeedConsume));
}

#[test]
fn a_block_is_pulled_before_the_input_ends() {
    let mut p = processor();
    let ports = PortStatus { input_has_data: true, input_finished: true, ..ready() };
    assert_eq!(p.event(ports), EventStep::Pull);
    let ended = PortStatus { input_finished: true, ..ready() };
    assert_eq!(p.event(ended), step(PortCommand::FinishOutput, Event::Finished));
    assert_eq!(p.event(ready()), step(PortCommand::SetNeedData, Event::NeedData));
}

#[test]
fn virtual_columns_are_appended_in_the_order_of_their_indices() {
    let mut p = processor();
    assert_eq!(p.on_pulled(Ok(block("own", 7))), Ok(Event::Sync));
    p.process(generate);
    // A waiting block goes out before another comes in.
    let ports = PortStatus { input_has_data: true, ..ready() };
    let full = PortStatus { output_can_push: false, ..ports };
    assert_eq!(p.event(full), step(PortCommand::SetNotNeedData, Event::NeedConsume));
    let expected = DataBlock {
        columns: vec![
            "own".to_string(),
            "first:1:7:block:segment:snapshot:4".to_string(),
            "middle:1:7:block:segment:snapshot:4".to_string(),
            "last:1:7:block:segment:snapshot:4".to_string(),
        ],
        num_rows: 4,
        meta: None,
    };
    assert_eq!(p.event(ports), step(PortCommand::PushData(expected), Event::NeedConsume));
    assert_eq!(p.event(ports), EventStep::Pull);
}

#[test]
fn without_a_block_nothing_is_processed() {
    let mut p = processor();
    p.process(generate);
    assert_eq!(p.event(ready()), step(PortCommand::SetNeedData, Event::NeedData));
}

#[test]
fn the_first_block_stays_the_first() {
    let mut p: FillVirtualColumnProcessor<&'static str, String> =
        FillVirtualColumnProcessor::create(BTreeMap::from([(0, "v")]));
    assert_eq!(p.on_pulled(Ok(block("one", 1))), Ok(Event::Sync));
    p.process(generate);
    assert_eq!(pushed(&mut p).columns.len(), 2);
    assert_eq!(p.on_pulled(Ok(block("two", 2))), Ok(Event::Sync));
    p.process(generate);
    let again = pushed(&mut p);
    assert_eq!(
        again.columns,
        vec![
            "one".to_string(),
            "v:1:1:block:segment:snapshot:4".to_string(),
            "v:1:1:block:segment:snapshot:4".to_string(),
        ]
    );
    assert_eq!(again.meta, None);
}

#[test]
fn an_error_of_the_input_is_returned() {
    let mut p = processor();
    let error = || ErrorCode { class: ErrorClass::Internal, message: "upstream".to_string() };
    assert_eq!(p.on_pulled(Err(error())), Err(error()));
    p.process(generate);
    assert_eq!(p.event(ready()), step(PortCommand::SetNeedData, Event::NeedData));
}
