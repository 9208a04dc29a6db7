use backup_catalog::keyed::Id;
use backup_catalog::smart_read::{Energetic, ReadStatus, SmartBuf, SmartReader, Step, Verdict};

#[test]
fn put_slice_fills_the_room_first() {
    let mut buf = SmartBuf::new(4);
    buf.put_slice(b"ab");
    assert_eq!(buf.remaining(), 2);
    buf.put_slice(b"cdef");
    assert_eq!(buf.remaining(), 0);
    buf.put_slice(b"gh");
    let (real, overflow) = buf.into_parts();
    assert_eq!(real, b"abcd");
    assert_eq!(overflow, b"efgh");
}

#[test]
fn put_slice_that_fits_exactly_leaves_no_overflow() {
    let mut buf = SmartBuf::new(3);
    buf.put_slice(b"abc");
    assert_eq!(buf.remaining(), 0);
    let (real, overflow) = buf.into_parts();
    assert_eq!(real, b"abc");
    assert!(overflow.is_empty());
}

#[test]
fn put_slice_without_room_keeps_everything() {
    let mut buf = SmartBuf::new(0);
    buf.put_slice(b"abc");
    let (real, overflow) = buf.into_parts();
    assert!(real.is_empty());
    assert_eq!(overflow, b"abc");
}

#[test]
fn empty_slice_counts_as_nothing_written() {
    let mut buf = SmartBuf::new(4);
    buf.put_slice(b"");
    assert_eq!(buf.verdict(ReadStatus::Ready), Verdict::Again);
    buf.put_slice(b"x");
    assert_eq!(buf.verdict(ReadStatus::Ready), Verdict::Return(ReadStatus::Ready));
}

#[test]
fn verdict_follows_the_producer() {
    let mut buf = SmartBuf::new(4);
    assert_eq!(buf.verdict(ReadStatus::Pending), Verdict::Return(ReadStatus::Pending));
    assert_eq!(buf.verdict(ReadStatus::Failed), Verdict::Return(ReadStatus::Failed));
    assert_eq!(buf.verdict(ReadStatus::Ready), Verdict::Again);
    buf.eof();
    assert_eq!(buf.verdict(ReadStatus::Ready), Verdict::Return(ReadStatus::Ready));
    assert_eq!(buf.verdict(ReadStatus::Pending), Verdict::Return(ReadStatus::Pending));
}

#[test]
fn fill_using_takes_in_what_was_read() {
    let mut buf = SmartBuf::new(5);
    buf.put_slice(b"ab");
    assert_eq!(buf.fill_using(b"cd"), Some(&b"cd"[..]));
    assert_eq!(buf.remaining(), 1);
    assert_eq!(buf.fill_using(b""), None);
    assert_eq!(buf.fill_using(b"e"), Some(&b"e"[..]));
    assert_eq!(buf.fill_using(b""), Some(&b""[..]));
    let (real, overflow) = buf.into_parts();
    assert_eq!(real, b"abcde");
    assert!(overflow.is_empty());
}

#[test]
fn fill_using_tells_the_end_of_the_other_reader() {
    let mut buf = SmartBuf::new(5);
    assert_eq!(buf.fill_using(b""), None);
    assert_eq!(buf.verdict(ReadStatus::Ready), Verdict::Again);
    assert_eq!(buf.fill_using(b"x"), Some(&b"x"[..]));
    assert_eq!(buf.verdict(ReadStatus::Ready), Verdict::Return(ReadStatus::Ready));
}

#[test]
fn reader_hands_out_the_overflow_in_order() {
    let mut reader = SmartReader::new(());
    assert_eq!(reader.take_pending(4), None);
    assert_eq!(reader.take_pending(0), Some(Vec::new()));
    reader.keep(b"0123456789".to_vec());
    assert_eq!(reader.take_pending(0), Some(Vec::new()));
    assert_eq!(reader.take_pending(4), Some(b"0123".to_vec()));
    assert_eq!(reader.take_pending(4), Some(b"4567".to_vec()));
    assert_eq!(reader.take_pending(4), Some(b"89".to_vec()));
    assert_eq!(reader.take_pending(4), None);
    reader.keep(b"ab".to_vec());
    assert_eq!(reader.take_pending(2), Some(b"ab".to_vec()));
    assert_eq!(reader.take_pending(1), None);
}

#[test]
fn reader_gives_its_producer() {
    let mut reader = SmartReader::new(5u32);
    *reader.inner_mut() += 1;
    assert_eq!(*reader.inner_mut(), 6);
    let mut energetic = Energetic::new(1u8);
    *energetic.inner_mut() = 9;
    assert_eq!(*energetic.inner_mut(), 9);
}

#[test]
fn energetic_goes_on_while_there_is_progress() {
    assert_eq!(Energetic::<()>::step(10, true, ReadStatus::Ready, 6), Step::Again { previous: 6 });
    assert_eq!(Energetic::<()>::step(6, false, ReadStatus::Ready, 1), Step::Again { previous: 1 });
    assert_eq!(Energetic::<()>::step(6, false, ReadStatus::Ready, 0), Step::Return(ReadStatus::Ready));
    assert_eq!(Energetic::<()>::step(6, false, ReadStatus::Ready, 6), Step::Return(ReadStatus::Ready));
    assert_eq!(Energetic::<()>::step(6, true, ReadStatus::Ready, 6), Step::Return(ReadStatus::Ready));
}

#[test]
fn energetic_is_pending_only_before_the_first_byte() {
    assert_eq!(Energetic::<()>::step(6, true, ReadStatus::Pending, 6), Step::Return(ReadStatus::Pending));
    assert_eq!(Energetic::<()>::step(6, false, ReadStatus::Pending, 6), Step::Return(ReadStatus::Ready));
    assert_eq!(Energetic::<()>::step(6, true, ReadStatus::Failed, 6), Step::Return(ReadStatus::Failed));
    assert_eq!(Energetic::<()>::step(6, false, ReadStatus::Failed, 3), Step::Return(ReadStatus::Failed));
}

#[test]
fn key_follows_the_last_one() {
    assert_eq!(Id::<String>::after(None).idx, 0);
    assert_eq!(Id::<String>::after(Some(0)).idx, 1);
    assert_eq!(Id::<String>::after(Some(41)).idx, 42);
    assert_eq!(Id::<String>::after(Some(u64::MAX - 1)).idx, u64::MAX);
}

#[test]
fn keys_compare_by_their_number() {
    let a = Id::<Vec<u8>>::new(7);
    let b = a;
    assert!(a == b);
    assert!(a.clone() == Id::new(7));
    assert!(a != Id::new(8));
    assert_eq!(a.idx, 7);
}
