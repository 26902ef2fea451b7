use dbuf::op::OpWriter;
use dbuf::op_log::{ArithOp, OpLog, Operation};
use dbuf::raw::writer::Writer;
use dbuf::raw::{Shared, SizedRawDoubleBuffer};
use dbuf::strategy::HazardStrategy;

#[test]
fn test_op_writer() {
    let mut shared = Shared::from_raw_parts(
        HazardStrategy::new(),
        SizedRawDoubleBuffer::new(0i64, 0i64),
    );
    let writer = Writer::new(&mut shared);
    let mut writer: OpWriter<ArithOp> = OpWriter::from_writer(writer);

    writer.swap_buffers(&mut shared);

    let mut reader = writer.reader(&shared);

    let guard = reader.try_get(&mut shared).unwrap();
    assert_eq!(*guard.value(&shared), 0);
    reader.end_read_guard(&mut shared, guard);

    writer.apply(ArithOp::Add(10));
    writer.apply(ArithOp::Mul(10));

    let guard = reader.try_get(&mut shared).unwrap();
    assert_eq!(*guard.value(&shared), 0);
    reader.end_read_guard(&mut shared, guard);
    assert_eq!(*writer.split(&shared).writer, 0);
    assert_eq!(*writer.split(&shared).reader, 0);

    writer.swap_buffers(&mut shared);
    writer.apply(ArithOp::Add(10));

    let mut reader2 = reader.clone_reader(&shared);
    let guard = reader2.try_get(&mut shared).unwrap();

    let g = reader.try_get(&mut shared).unwrap();
    assert_eq!(*g.value(&shared), 100);
    reader.end_read_guard(&mut shared, g);
    assert_eq!(*guard.value(&shared), 100);
    assert_eq!(*writer.split(&shared).writer, 0);
    assert_eq!(*writer.split(&shared).reader, 100);

    writer.swap_buffers(&mut shared);

    let g = reader.try_get(&mut shared).unwrap();
    assert_eq!(*g.value(&shared), 110);
    assert_eq!(*guard.value(&shared), 100);
    assert!(!core::ptr::eq(guard.value(&shared), g.value(&shared)));
    reader.end_read_guard(&mut shared, g);
    assert_eq!(*writer.split(&shared).writer, 100);
    assert_eq!(*writer.split(&shared).reader, 110);

    reader2.end_read_guard(&mut shared, guard);
}

#[test]
fn op_log_replays_in_order() {
    let mut log: OpLog<ArithOp> = OpLog::new();
    log.push(ArithOp::Add(10));
    log.push(ArithOp::Mul(10));
    let mut front: i64 = 0;
    log.apply(&mut front);
    assert_eq!(front, 100);
    assert_eq!(log.unapplied().len(), 0);
    let mut back: i64 = 0;
    log.apply(&mut back);
    assert_eq!(back, 100);
    assert_eq!(log.unapplied().len(), 0);
}

#[test]
fn op_applies_wrap() {
    let mut op = ArithOp::Add(1);
    let mut buffer: i64 = i64::MAX;
    op.apply(&mut buffer);
    assert_eq!(buffer, i64::MIN);
    let op = ArithOp::Mul(2);
    let mut buffer = 3i64;
    op.apply_last(&mut buffer);
    assert_eq!(buffer, 6);
}

#[test]
fn quiet_swaps_leave_buffers_equal() {
    let mut shared = Shared::from_raw_parts(
        HazardStrategy::new(),
        SizedRawDoubleBuffer::new(7i64, 7i64),
    );
    let writer = Writer::new(&mut shared);
    let mut writer: OpWriter<ArithOp> = OpWriter::from_writer(writer);

    writer.apply(ArithOp::Add(3));
    writer.publish(&mut shared);
    let split = writer.split(&shared);
    assert_eq!(*split.reader, 10);

    writer.swap_buffers(&mut shared);
    let split = writer.split(&shared);
    assert_eq!(*split.reader, 10);
    assert_eq!(*split.writer, 10);

    writer.swap_buffers(&mut shared);
    let split = writer.split(&shared);
    assert_eq!(*split.reader, 10);
    assert_eq!(*split.writer, 10);

    writer.publish(&mut shared);
    let split = writer.split(&shared);
    assert_eq!(*split.reader, 10);
    assert_eq!(*split.writer, 10);
}
