use std::sync::Arc;

use arrow::array::{Array, ArrayRef, Float64Array, StringArray};
use arrow::datatypes::{DataType, Field, Schema};
use arrow::ipc::writer::StreamWriter;
use arrow::record_batch::RecordBatch;
use chartml::data::{from_ipc_bytes, group_by, ipc_error, to_ipc_bytes, ArrowTable, IpcFailure};
use chartml::element::ChartError;

fn scores_batch(names: &[&str], scores: &[f64]) -> RecordBatch {
    let schema = Arc::new(Schema::new(vec![
        Field::new("name", DataType::Utf8, true),
        Field::new("score", DataType::Float64, true),
    ]));
    let names: ArrayRef = Arc::new(StringArray::from(names.to_vec()));
    let scores: ArrayRef = Arc::new(Float64Array::from(scores.to_vec()));
    RecordBatch::try_new(schema, vec![names, scores]).unwrap()
}

fn name_at(batch: &RecordBatch, row: usize) -> String {
    let col = batch.column(batch.schema().index_of("name").unwrap());
    col.as_any().downcast_ref::<StringArray>().unwrap().value(row).to_string()
}

fn score_at(batch: &RecordBatch, row: usize) -> f64 {
    let col = batch.column(batch.schema().index_of("score").unwrap());
    col.as_any().downcast_ref::<Float64Array>().unwrap().value(row)
}

fn data_message(e: ChartError) -> String {
    match e {
        ChartError::DataError(m) => m,
        other => panic!("expected a data error, got {:?}", other),
    }
}

#[test]
fn datatable_ipc_roundtrip() {
    let table = ArrowTable { batch: scores_batch(&["Alice", "Bob"], &[95.5, 87.0]) };
    let bytes = to_ipc_bytes(&table).unwrap();
    let back = from_ipc_bytes(&bytes).unwrap();
    assert_eq!(back.batch.num_rows(), 2);
    assert_eq!(name_at(&back.batch, 0), "Alice");
    assert_eq!(score_at(&back.batch, 1), 87.0);
}

#[test]
fn ipc_stream_with_several_batches_is_joined() {
    let first = scores_batch(&["Alice", "Bob"], &[95.5, 87.0]);
    let second = scores_batch(&["Carol"], &[70.25]);
    let mut bytes: Vec<u8> = Vec::new();
    {
        let mut writer = StreamWriter::try_new(&mut bytes, &first.schema()).unwrap();
        writer.write(&first).unwrap();
        writer.write(&second).unwrap();
        writer.finish().unwrap();
    }
    let back = from_ipc_bytes(&bytes).unwrap();
    assert_eq!(back.batch.num_rows(), 3);
    assert_eq!(name_at(&back.batch, 2), "Carol");
    assert_eq!(score_at(&back.batch, 2), 70.25);
}

#[test]
fn ipc_stream_without_batches_gives_an_empty_table() {
    let schema = scores_batch(&[], &[]).schema();
    let mut bytes: Vec<u8> = Vec::new();
    {
        let mut writer = StreamWriter::try_new(&mut bytes, &schema).unwrap();
        writer.finish().unwrap();
    }
    let back = from_ipc_bytes(&bytes).unwrap();
    assert_eq!(back.batch.num_rows(), 0);
    assert_eq!(back.batch.num_columns(), 2);
}

#[test]
fn ipc_garbage_is_a_stream_error() {
    let r = from_ipc_bytes(&[1, 2, 3, 4, 5, 6, 7, 8]);
    let m = data_message(r.err().unwrap());
    assert!(m.starts_with("Failed to read Arrow IPC: "), "{}", m);
    assert!(m.len() > "Failed to read Arrow IPC: ".len());
}

#[test]
fn ipc_empty_input_is_a_stream_error() {
    let m = data_message(from_ipc_bytes(&[]).err().unwrap());
    assert!(m.starts_with("Failed to read Arrow IPC: "), "{}", m);
}

#[test]
fn ipc_truncated_batch_is_a_batch_error() {
    let table = ArrowTable { batch: scores_batch(&["Alice", "Bob"], &[95.5, 87.0]) };
    let bytes = to_ipc_bytes(&table).unwrap();
    let schema_only = {
        let mut b: Vec<u8> = Vec::new();
        let mut writer = StreamWriter::try_new(&mut b, &table.batch.schema()).unwrap();
        writer.flush().unwrap();
        drop(writer);
        b.len()
    };
    let cut = &bytes[..schema_only + 20];
    let m = data_message(from_ipc_bytes(cut).err().unwrap());
    assert!(m.starts_with("Failed to read Arrow batch: "), "{}", m);
}

#[test]
fn ipc_error_messages_name_the_step() {
    let m = |f: IpcFailure| data_message(ipc_error(&f));
    assert_eq!(m(IpcFailure::Stream("bad".to_string())), "Failed to read Arrow IPC: bad");
    assert_eq!(m(IpcFailure::Batch("short".to_string())), "Failed to read Arrow batch: short");
    assert_eq!(m(IpcFailure::Concat("types".to_string())), "Failed to concat batches: types");
}

#[test]
fn ipc_round_trip_keeps_names_and_rows() {
    let table = ArrowTable { batch: scores_batch(&["Alice", "Bob", "Carol"], &[1.0, 2.0, 3.0]) };
    let bytes = to_ipc_bytes(&table).unwrap();
    let back = from_ipc_bytes(&bytes).unwrap();
    assert_eq!(back.num_rows(), 3);
    assert_eq!(back.field_names(), vec!["name".to_string(), "score".to_string()]);
    assert_eq!(back.field_names(), table.field_names());
    assert_eq!(to_ipc_bytes(&back).unwrap(), bytes);
    let names = Some(vec![Some("Alice".to_string()), Some("Bob".to_string()), Some("Carol".to_string())]);
    assert_eq!(back.text_column(0), names);
    assert_eq!(back.text_column(0), table.text_column(0));
    assert_eq!(back.text_column(1), None);
}

fn cat_batch() -> RecordBatch {
    let schema = Arc::new(Schema::new(vec![
        Field::new("cat", DataType::Utf8, true),
        Field::new("v", DataType::Float64, true),
    ]));
    let cats: ArrayRef = Arc::new(StringArray::from(vec![Some("A"), Some("B"), Some("A"), None]));
    let vs: ArrayRef = Arc::new(Float64Array::from(vec![1.0, 2.0, 3.0, 4.0]));
    RecordBatch::try_new(schema, vec![cats, vs]).unwrap()
}

#[test]
fn datatable_group_by() {
    let table = ArrowTable { batch: cat_batch() };
    let cells = vec![Some("A".to_string()), Some("B".to_string()), Some("A".to_string()), None];
    let groups = group_by(&table, &cells);
    assert_eq!(groups.len(), 2);
    assert_eq!(groups[0].0, "A");
    assert_eq!(groups[0].1.num_rows(), 2);
    assert_eq!(groups[1].0, "B");
    assert_eq!(groups[1].1.num_rows(), 1);
    let v = groups[0].1.batch.column(1).as_any().downcast_ref::<Float64Array>().unwrap().clone();
    assert_eq!((v.value(0), v.value(1)), (1.0, 3.0));
    assert_eq!(groups[0].1.field_names(), vec!["cat".to_string(), "v".to_string()]);
}

#[test]
fn group_by_with_no_values_gives_no_groups() {
    let table = ArrowTable { batch: cat_batch() };
    let groups = group_by(&table, &vec![None, None, None, None]);
    assert!(groups.is_empty());
}
