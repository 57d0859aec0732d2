use range_downloader::plan::plan;
use range_downloader::ByteInterval;

fn covers(iv: &ByteInterval, b: u64, total: u64) -> bool {
    match *iv {
        ByteInterval::Bounded { start, end } => start <= b && b <= end,
        ByteInterval::OpenEnded { start } => start <= b && b < total,
    }
}

#[test]
fn plan_1000_over_4_tasks() {
    let r = plan(1000, 4);
    assert_eq!(r.len(), 4);
    assert!(matches!(r[0], ByteInterval::Bounded { start: 0, end: 249 }));
    assert!(matches!(r[1], ByteInterval::Bounded { start: 250, end: 499 }));
    assert!(matches!(r[2], ByteInterval::Bounded { start: 500, end: 749 }));
    assert!(matches!(r[3], ByteInterval::OpenEnded { start: 750 }));
}

#[test]
fn plan_single_task_is_one_open_interval() {
    let r = plan(1000, 1);
    assert_eq!(r.len(), 1);
    assert!(matches!(r[0], ByteInterval::OpenEnded { start: 0 }));
}

#[test]
fn plan_absorbs_remainder_in_last_interval() {
    let r = plan(10, 3);
    assert_eq!(r.len(), 3);
    assert!(matches!(r[0], ByteInterval::Bounded { start: 0, end: 2 }));
    assert!(matches!(r[1], ByteInterval::Bounded { start: 3, end: 5 }));
    assert!(matches!(r[2], ByteInterval::OpenEnded { start: 6 }));
}

#[test]
fn plan_partitions_every_byte_exactly_once() {
    for &(total, count) in &[(1000u64, 4u64), (10, 3), (7, 7), (1000, 1), (999, 8)] {
        let r = plan(total, count);
        assert_eq!(r.len() as u64, count);
        for b in 0..total {
            let hits = r.iter().filter(|iv| covers(iv, b, total)).count();
            assert_eq!(hits, 1, "byte {} of {} over {} tasks", b, total, count);
        }
        for iv in &r {
            match *iv {
                ByteInterval::Bounded { start, end } => {
                    assert!(start <= end && end < total);
                }
                ByteInterval::OpenEnded { start } => assert!(start <= total),
            }
        }
    }
}

#[test]
fn plan_empty_resource_single_task() {
    let r = plan(0, 1);
    assert_eq!(r.len(), 1);
    assert!(matches!(r[0], ByteInterval::OpenEnded { start: 0 }));
}

#[test]
fn plan_equal_tasks_and_bytes_gives_unit_chunks() {
    let r = plan(4, 4);
    assert_eq!(r.len(), 4);
    assert!(matches!(r[0], ByteInterval::Bounded { start: 0, end: 0 }));
    assert!(matches!(r[1], ByteInterval::Bounded { start: 1, end: 1 }));
    assert!(matches!(r[2], ByteInterval::Bounded { start: 2, end: 2 }));
    assert!(matches!(r[3], ByteInterval::OpenEnded { start: 3 }));
}

#[test]
fn plan_last_interval_starts_at_chunk_times_count_minus_one() {
    let r = plan(999, 8);
    let chunk = 999 / 8;
    match r[7] {
        ByteInterval::OpenEnded { start } => assert_eq!(start, chunk * 7),
        _ => panic!("last interval must be open-ended"),
    }
}
