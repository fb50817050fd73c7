use git_iblame::commit_time::CommitTime;
use git_iblame::errors::BlameError;

#[test]
fn to_date_time_offset_invalid() {
    let time = CommitTime::new(0, 100_000);
    let datetime = time.to_date_time_text();
    assert!(datetime.is_err());
    assert_eq!(
        datetime.unwrap_err(),
        BlameError::InvalidTimeZone {
            offset_minutes: 100_000
        }
    );
}

#[test]
fn to_date_time_east() {
    // an Eastern Hemisphere offset
    let time = CommitTime::new(1745693791, 540);
    assert_eq!(
        time.to_date_time_text().unwrap(),
        "2025-04-27 03:56:31 +09:00"
    );
}

#[test]
fn to_date_time_west() {
    // a Western Hemisphere offset
    let time = CommitTime::new(1745196130, -420);
    assert_eq!(
        time.to_date_time_text().unwrap(),
        "2025-04-20 17:42:10 -07:00"
    );
}

#[test]
fn to_date_time_out_of_range() {
    let time = CommitTime::new(i64::MAX, 0);
    assert_eq!(
        time.to_date_time_text(),
        Err(BlameError::TimeOutOfRange { seconds: i64::MAX })
    );
}
