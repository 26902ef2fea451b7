use dbuf::delayed::DelayedWriter;
use dbuf::raw::writer::Writer;
use dbuf::raw::{Shared, SizedRawDoubleBuffer};
use dbuf::strategy::local::{LocalShared, LocalWriter};
use dbuf::strategy::local_tracking::LocalTrackingStrategy;
use dbuf::strategy::{HazardStrategy, LocalStrategy};
use dbuf::interface::WaitStrategy;
use dbuf::wait::{NoopWait, SpinWait};
use dbuf::Flag;
use dbuf::pixel::{const_sized, Dim, Dynamic, PixelBuf};
use dbuf::raw::SliceRawDoubleBuffer;
use dbuf::split::Split;
use dbuf::strategy::HazardStrategy as PixelStrategy;

#[test]
fn test_local() {
    let mut shared = LocalShared::new(LocalStrategy::new(), SizedRawDoubleBuffer::new(0, 0));
    let writer = LocalWriter::new(&mut shared);

    let mut reader = writer.reader(&shared);

    let split_mut = writer.split_mut(&mut shared);
    *split_mut.writer = 10;
    let guard = reader.get(&mut shared);
    assert_eq!(*guard.value(&shared), 0);
    reader.end_read_guard(&mut shared, guard);

    writer.try_swap_buffers(&mut shared).unwrap();

    let guard = reader.get(&mut shared);
    assert_eq!(*guard.value(&shared), 10);
    reader.end_read_guard(&mut shared, guard);
    let split_mut = writer.split_mut(&mut shared);
    *split_mut.writer = 20;
    let guard = reader.get(&mut shared);
    assert_eq!(*guard.value(&shared), 10);
    reader.end_read_guard(&mut shared, guard);

    writer.try_swap_buffers(&mut shared).unwrap();

    let guard = reader.get(&mut shared);
    assert_eq!(*guard.value(&shared), 20);
    reader.end_read_guard(&mut shared, guard);

    let _a = reader.get(&mut shared);

    assert!(writer.try_swap_buffers(&mut shared).is_err());
}

#[test]
fn hazard_test_local_tracking() {
    let mut shared = Shared::from_raw_parts(HazardStrategy::new(), SizedRawDoubleBuffer::new(0, 0));
    let writer = Writer::new(&mut shared);

    let mut reader = writer.reader(&shared);

    let split_mut = writer.split_mut(&mut shared);
    *split_mut.writer = 10;
    let mut reader2 = reader;
    let a = reader.get(&mut shared);

    let mut writer = DelayedWriter::new(writer);

    writer.start_buffer_swap(&mut shared);

    let b = reader2.get(&mut shared);

    assert!(!writer.is_swap_finished(&mut shared));
    assert_eq!(*a.value(&shared), 0);
    assert_eq!(*b.value(&shared), 10);

    reader.end_read_guard(&mut shared, a);

    assert!(writer.is_swap_finished(&mut shared));

    assert_eq!(*b.value(&shared), 10);
    reader2.end_read_guard(&mut shared, b);
}

#[test]
fn test() {
    let mut shared = Shared::from_raw_parts(
        HazardStrategy::new(),
        SizedRawDoubleBuffer::new(10, 20),
    );
    let writer = Writer::new(&mut shared);
    let mut writer = DelayedWriter::new(writer);

    let split = writer.writer_ref().split(&shared);
    assert_eq!(*split.writer, 10);
    assert_eq!(*split.reader, 20);

    let mut r1 = writer.writer_ref().reader(&shared);
    let mut r2 = writer.writer_ref().reader(&shared);

    let a = r1.get(&mut shared);

    writer.start_buffer_swap(&mut shared);

    let b = r2.get(&mut shared);

    assert!(!core::ptr::eq(a.value(&shared), b.value(&shared)));

    assert!(!writer.is_swap_finished(&mut shared));

    r1.end_read_guard(&mut shared, a);
    r2.end_read_guard(&mut shared, b);

    writer.into_finish_swap(&mut shared);
}

#[test]
fn single_threaded_sanity() {
    let mut shared = Shared::from_raw_parts(HazardStrategy::new(), SizedRawDoubleBuffer::new(0, 0));
    let writer = Writer::new(&mut shared);
    let mut reader = writer.reader(&shared);

    let split_mut = writer.split_mut(&mut shared);
    *split_mut.writer = 10;
    let guard = reader.get(&mut shared);
    assert_eq!(*guard.value(&shared), 0);
    reader.end_read_guard(&mut shared, guard);

    writer.swap_buffers(&mut shared);
    let guard = reader.get(&mut shared);
    assert_eq!(*guard.value(&shared), 10);
    reader.end_read_guard(&mut shared, guard);

    let split_mut = writer.split_mut(&mut shared);
    *split_mut.writer = 20;
    let guard = reader.get(&mut shared);
    assert_eq!(*guard.value(&shared), 10);
    reader.end_read_guard(&mut shared, guard);

    writer.swap_buffers(&mut shared);
    let guard = reader.get(&mut shared);
    assert_eq!(*guard.value(&shared), 20);
    reader.end_read_guard(&mut shared, guard);
}

#[test]
fn reader_slot_reuse() {
    let mut shared = Shared::from_raw_parts(HazardStrategy::new(), SizedRawDoubleBuffer::new(0, 0));
    let writer = Writer::new(&mut shared);
    let mut reader = writer.reader(&shared);
    let mut rounds: usize = 0;
    while rounds < 1000 {
        let guard = reader.get(&mut shared);
        reader.end_read_guard(&mut shared, guard);
        rounds += 1;
    }
    assert_eq!(shared.reader_slot_count(), 1);
}

#[test]
fn upgrade_error_after_writer_drop() {
    let mut shared = Shared::from_raw_parts(HazardStrategy::new(), SizedRawDoubleBuffer::new(0, 0));
    let writer = Writer::new(&mut shared);
    let mut reader = writer.reader(&shared);

    let guard = reader.get(&mut shared);
    assert_eq!(*guard.value(&shared), 0);
    reader.end_read_guard(&mut shared, guard);

    writer.release(&mut shared);

    let mut sibling = reader.clone_reader(&shared);
    assert!(sibling.try_get(&mut shared).is_err());
    assert!(reader.try_get(&mut shared).is_err());
}

#[test]
fn probe_is_idempotent() {
    let mut shared = Shared::from_raw_parts(HazardStrategy::new(), SizedRawDoubleBuffer::new(0, 0));
    let writer = Writer::new(&mut shared);
    let mut reader = writer.reader(&shared);

    let guard = reader.get(&mut shared);
    let mut writer = DelayedWriter::new(writer);
    writer.start_buffer_swap(&mut shared);

    assert!(!writer.is_swap_finished(&mut shared));
    assert!(!writer.is_swap_finished(&mut shared));

    reader.end_read_guard(&mut shared, guard);

    assert!(writer.is_swap_finished(&mut shared));
    assert!(writer.is_swap_finished(&mut shared));
}

#[test]
fn tracking_capture_drain() {
    let mut strategy = LocalTrackingStrategy::new();
    let mut tag_a = strategy.create_reader_tag();
    let mut tag_b = strategy.create_reader_tag();

    strategy.begin_read_guard(&mut tag_a);
    assert_eq!(strategy.active_reads(), 1);

    let token = strategy.validate_swap();
    let mut capture = strategy.capture_readers(token);
    assert!(!strategy.have_readers_exited(&mut capture));

    strategy.begin_read_guard(&mut tag_b);
    assert!(!strategy.have_readers_exited(&mut capture));

    strategy.end_read_guard(&mut tag_a);
    assert!(strategy.have_readers_exited(&mut capture));

    strategy.end_read_guard(&mut tag_b);
    assert_eq!(strategy.active_reads(), 0);
}

#[test]
fn wait_strategies() {
    let noop = NoopWait::new();
    let mut state = ();
    assert!(noop.wait(&mut state));
    noop.notify();

    let spin = SpinWait::new();
    let mut counter = 0u32;
    assert!(!spin.wait(&mut counter));
    assert_eq!(counter, 1);
    let mut saturated = 10u32;
    assert!(spin.wait(&mut saturated));
    spin.notify();
}

#[test]
fn flag_flips() {
    let mut flag = Flag::new();
    assert!(!flag.load());
    flag.flip();
    assert!(flag.load());
    flag.flip();
    assert!(!flag.load());
}

#[test]
fn pixel_surface() {
    let mut surface = const_sized::<4, 3>();
    assert_eq!(surface.dim().width(), 4);
    assert_eq!(surface.dim().height(), 3);
    assert_eq!(surface.read_buf().len(), 48);
    assert_eq!(surface.get(1, 2), [0, 0, 0, 0]);
    surface.set(1, 2, [9, 8, 7, 6]);
    assert_eq!(surface.get(1, 2), [9, 8, 7, 6]);
    assert_eq!(surface.get(0, 0), [0, 0, 0, 0]);
    assert_eq!(surface.read_buf().iter().all(|b| *b == 0), true);

    let dynamic = PixelBuf::from_raw_parts(Dynamic { width: 2, height: 2 }, PixelStrategy::new());
    assert_eq!(dynamic.write_buf().len(), 16);
}

#[test]
fn slice_buffer_halves() {
    let pair = SliceRawDoubleBuffer::from_array([1, 2, 3, 4]);
    assert_eq!(*pair.at(false, 0), 1);
    assert_eq!(*pair.at(false, 1), 2);
    assert_eq!(*pair.at(true, 0), 3);
    assert_eq!(*pair.at(true, 1), 4);
}

#[test]
fn split_clones() {
    let mut value = String::from("front");
    let copy = value.split();
    assert_eq!(value, copy);
}

fn second_of(pair: &(u32, u32)) -> &u32 {
    &pair.1
}

fn second_if_marked(pair: &(u32, u32)) -> Option<&u32> {
    if pair.0 == 2 {
        Some(&pair.1)
    } else {
        None
    }
}

#[test]
fn guard_mapping() {
    let mut shared = Shared::from_raw_parts(
        HazardStrategy::new(),
        SizedRawDoubleBuffer::new((1u32, 10u32), (2u32, 20u32)),
    );
    let writer = Writer::new(&mut shared);
    let mut reader = writer.reader(&shared);

    let guard = reader.get(&mut shared);
    let mapped = guard.map(second_of);
    assert_eq!(*mapped.value(&shared), 20);
    let guard = mapped.into_inner();

    match guard.try_map(&shared, second_if_marked) {
        Ok(mapped) => {
            let plain = mapped.into_inner();
            reader.end_read_guard(&mut shared, plain);
        }
        Err(plain) => {
            reader.end_read_guard(&mut shared, plain);
            panic!("the observed read side starts with 2");
        }
    }
}

#[test]
fn writer_mut_gating() {
    let mut shared = Shared::from_raw_parts(HazardStrategy::new(), SizedRawDoubleBuffer::new(0, 0));
    let writer = Writer::new(&mut shared);
    let mut reader = writer.reader(&shared);

    let guard = reader.get(&mut shared);
    let mut writer = DelayedWriter::new(writer);
    writer.start_buffer_swap(&mut shared);

    assert!(writer.try_writer_mut(&mut shared).is_none());

    reader.end_read_guard(&mut shared, guard);

    assert!(writer.try_writer_mut(&mut shared).is_some());
}
