use babysitter::{BabysittingJob, Family, TimeRange};

fn job(start: i32, end: i32) -> BabysittingJob {
    BabysittingJob::new(start, end).unwrap()
}

fn family(name: &str, rates: &[(i32, i32, u32)]) -> Family {
    let table = rates
        .iter()
        .map(|&(start, end, rate)| (TimeRange::new(start, end).unwrap(), rate))
        .collect();
    Family::new(name.to_string(), table)
}

#[test]
fn start_time_after_5pm_is_valid() {
    assert!(job(17, 19).is_valid());
}

#[test]
fn start_time_before_5pm_is_invalid() {
    assert!(!job(16, 20).is_valid());
}

#[test]
fn end_time_before_4am_is_valid() {
    assert!(job(0, 3).is_valid());
}

#[test]
fn end_time_after_4am_is_invalid() {
    assert!(!job(0, 5).is_valid());
}

#[test]
fn start_time_before_end_time_is_valid() {
    assert!(job(17, 19).is_valid());
}

#[test]
fn start_time_before_end_time_after_midnight_is_valid() {
    assert!(job(17, 3).is_valid());
}

#[test]
fn start_time_after_end_time_is_invalid() {
    assert!(!job(20, 17).is_valid());
}

#[test]
fn family_pays_correct_rate_for_a_given_hour() {
    let family = family("foo", &[(17, 19, 10)]);
    assert_eq!(family.rate_for_hour(17), Ok(10));
}

#[test]
fn family_pays_0_for_undefined_hours() {
    let family = family("foo", &[]);
    assert_eq!(family.rate_for_hour(17), Ok(0));
}

#[test]
fn correctly_calculates_pay_when_job_does_not_cross_day_boundary() {
    let family = family("foo", &[(17, 20, 10)]);
    assert_eq!(job(17, 19).calculate_pay(&family), 20);
}

#[test]
fn correctly_calculates_pay_when_job_crosses_day_boundary() {
    let family = family("foo", &[(20, 24, 10), (0, 4, 10)]);
    assert_eq!(job(22, 2).calculate_pay(&family), 40);
}

#[test]
fn correctly_handles_pay_rate_changes() {
    let family = family("foo", &[(17, 19, 15), (19, 24, 20)]);
    assert_eq!(job(18, 20).calculate_pay(&family), 35);
}

#[test]
fn test_family_a() {
    // Family A pays $15 per hour before 11pm, and $20 per hour the rest of the night
    let family = family("A", &[(17, 23, 15), (23, 24, 20), (0, 4, 20)]);
    assert_eq!(job(18, 2).calculate_pay(&family), 135);
}

#[test]
fn test_family_b() {
    // Family B pays $12 per hour before 10pm, $8 between 10 and 12, and $16 the rest of the night
    let family = family("B", &[(17, 22, 12), (22, 24, 8), (0, 4, 16)]);
    assert_eq!(job(18, 2).calculate_pay(&family), 96);
}

#[test]
fn test_family_c() {
    // Family C pays $21 per hour before 9pm, then $15 the rest of the night
    let family = family("C", &[(17, 21, 21), (21, 24, 15), (0, 4, 15)]);
    assert_eq!(job(17, 23).calculate_pay(&family), 114);
}
