use elsdc::detection::{check_detection, label_map_len, DetectionReport, DetectorArrays};
use elsdc::error::{DetectionFailure, ElsdcError};

fn report(status: i32, count: i32, present: bool) -> DetectionReport {
    DetectionReport { status, count, primitives_present: present }
}

#[test]
fn sound_report() {
    assert_eq!(check_detection(&report(0, 3, true)), Ok(3));
    assert_eq!(check_detection(&report(0, 0, false)), Ok(0));
}

#[test]
fn failed_reports() {
    assert_eq!(
        check_detection(&report(2, 3, true)),
        Err(ElsdcError::DetectionError(DetectionFailure::Status(2)))
    );
    assert_eq!(
        check_detection(&report(0, -1, true)),
        Err(ElsdcError::DetectionError(DetectionFailure::NegativeCount(-1)))
    );
    assert_eq!(
        check_detection(&report(0, 4, false)),
        Err(ElsdcError::DetectionError(DetectionFailure::MissingOutput))
    );
}

#[test]
fn release_is_granted_once() {
    let mut arrays = DetectorArrays::from_report(&report(0, 5, true)).unwrap();
    assert_eq!(arrays.count(), 5);
    assert!(!arrays.is_released());
    assert_eq!(arrays.release(), Some(5));
    assert!(arrays.is_released());
    assert_eq!(arrays.release(), None);
    assert_eq!(arrays.release(), None);
}

#[test]
fn many_cycles_release_each_once() {
    let mut released = 0usize;
    for k in 0..1000 {
        let mut arrays = DetectorArrays::from_report(&report(0, k % 7, true)).unwrap();
        for _ in 0..3 {
            if let Some(n) = arrays.release() {
                assert_eq!(n, (k % 7) as usize);
                released += 1;
            }
        }
    }
    assert_eq!(released, 1000);
}

#[test]
fn failed_call_grants_nothing() {
    assert!(matches!(
        DetectorArrays::from_report(&report(1, 5, true)),
        Err(ElsdcError::DetectionError(DetectionFailure::Status(1)))
    ));
}

#[test]
fn label_map_sizes() {
    assert_eq!(label_map_len(100, 100), Ok(10000));
    assert_eq!(label_map_len(0, 7), Ok(0));
    assert_eq!(label_map_len(u32::MAX, u32::MAX), Ok(u32::MAX as usize * u32::MAX as usize));
}
