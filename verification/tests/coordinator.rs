use range_downloader::cli::effective_task_num;
use range_downloader::errors::DownloadError;
use range_downloader::probe::CapabilityResult;
use range_downloader::run::{reduce_outcomes, Downloader};
use range_downloader::ByteInterval;

#[test]
fn ranged_transfer_launches_one_fetcher_per_task() {
    let d = Downloader::new(
        String::from("http://example.invalid/sdk.zip"),
        String::from("/tmp/sdk.zip"),
        4,
    );
    let cap = CapabilityResult { supports_ranges: true, total_length: 1000 };
    let lp = d.launch_plan(&cap);
    assert!(lp.use_range_header);
    assert_eq!(lp.intervals.len(), 4);
    assert!(matches!(lp.intervals[0], ByteInterval::Bounded { start: 0, end: 249 }));
    assert!(matches!(lp.intervals[3], ByteInterval::OpenEnded { start: 750 }));
}

#[test]
fn unranged_transfer_launches_exactly_one_fetcher_without_range_header() {
    let d = Downloader::new(
        String::from("http://example.invalid/sdk.zip"),
        String::from("/tmp/sdk.zip"),
        4,
    );
    let cap = CapabilityResult { supports_ranges: false, total_length: 10 };
    let lp = d.launch_plan(&cap);
    assert!(!lp.use_range_header);
    assert_eq!(lp.intervals.len(), 1);
    assert!(matches!(lp.intervals[0], ByteInterval::Bounded { start: 0, end: 9 }));
}

#[test]
fn all_successes_reduce_to_success() {
    let outcomes: Vec<Result<(), DownloadError>> = vec![Ok(()), Ok(()), Ok(()), Ok(())];
    assert_eq!(reduce_outcomes(&outcomes), Ok(()));
    let none: Vec<Result<(), DownloadError>> = vec![];
    assert_eq!(reduce_outcomes(&none), Ok(()));
}

#[test]
fn any_failure_reduces_to_the_first_error() {
    let outcomes: Vec<Result<(), DownloadError>> = vec![
        Ok(()),
        Err(DownloadError::TransportError),
        Err(DownloadError::FileError),
        Ok(()),
    ];
    assert_eq!(reduce_outcomes(&outcomes), Err(DownloadError::TransportError));
    let outcomes: Vec<Result<(), DownloadError>> =
        vec![Err(DownloadError::FileError), Ok(())];
    assert_eq!(reduce_outcomes(&outcomes), Err(DownloadError::FileError));
    let outcomes: Vec<Result<(), DownloadError>> =
        vec![Ok(()), Err(DownloadError::RequestFailed)];
    assert_eq!(reduce_outcomes(&outcomes), Err(DownloadError::RequestFailed));
}

#[test]
fn error_messages_match_their_kind() {
    assert_eq!(DownloadError::RequestFailed.message(), "request fail");
    assert_eq!(DownloadError::LengthUnavailable.message(), "get length fail");
    assert_eq!(DownloadError::TransportError.message(), "download file error");
    assert_eq!(DownloadError::FileError.message(), "download file error");
}

#[test]
fn task_num_defaults_to_four() {
    assert_eq!(effective_task_num(None), 4);
    assert_eq!(effective_task_num(Some(8)), 8);
    assert_eq!(effective_task_num(Some(1)), 1);
}

#[test]
fn downloader_keeps_its_request() {
    let d = Downloader::new(String::from("u"), String::from("p"), 7);
    assert_eq!(d.url, "u");
    assert_eq!(d.path, "p");
    assert_eq!(d.task_num, 7);
}
