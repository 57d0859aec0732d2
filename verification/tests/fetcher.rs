use range_downloader::fetch::{range_header_value, FetchProgress};
use range_downloader::ByteInterval;

#[test]
fn range_header_for_bounded_interval() {
    let hv = range_header_value(&ByteInterval::Bounded { start: 0, end: 249 });
    assert_eq!(hv, b"bytes=0-249".to_vec());
    let hv = range_header_value(&ByteInterval::Bounded { start: 250, end: 499 });
    assert_eq!(hv, b"bytes=250-499".to_vec());
}

#[test]
fn range_header_for_open_ended_interval() {
    let hv = range_header_value(&ByteInterval::OpenEnded { start: 750 });
    assert_eq!(hv, b"bytes=750-".to_vec());
    let hv = range_header_value(&ByteInterval::OpenEnded { start: 0 });
    assert_eq!(hv, b"bytes=0-".to_vec());
}

#[test]
fn range_header_renders_large_offsets() {
    let hv = range_header_value(&ByteInterval::Bounded {
        start: u64::MAX,
        end: u64::MAX,
    });
    assert_eq!(
        hv,
        b"bytes=18446744073709551615-18446744073709551615".to_vec()
    );
}

#[test]
fn progress_starts_at_interval_start_and_advances_per_chunk() {
    let mut p = FetchProgress::start_at(&ByteInterval::Bounded { start: 250, end: 499 });
    assert_eq!(p.offset, 250);
    p.record_chunk(100);
    assert_eq!(p.offset, 350);
    p.record_chunk(0);
    assert_eq!(p.offset, 350);
    p.record_chunk(150);
    assert_eq!(p.offset, 500);

    let q = FetchProgress::start_at(&ByteInterval::OpenEnded { start: 750 });
    assert_eq!(q.offset, 750);
}
