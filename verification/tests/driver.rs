use plot_3d::clock::Timer;
use plot_3d::driver::{Driver, DriverError, DriverState};
use plot_3d::ratio::Ratio;

fn driver() -> Driver {
    Driver::new(Timer::new(Some(100), Some(1_000)).unwrap())
}

#[test]
fn driver_starts_uninitialized() {
    let driver = driver();
    assert_eq!(driver.state(), DriverState::Uninitialized);
    assert_eq!(driver.timer().get_time_total(), Ratio { numerator: 0, denominator: 100 });
}

#[test]
fn driver_runs_frame_after_frame_until_it_is_shut_down() {
    let mut driver = driver();
    assert_eq!(driver.attach(), Ok(()));
    assert_eq!(driver.state(), DriverState::Ready);

    assert_eq!(driver.begin_frame(Some(1_050)), Ok(Ratio { numerator: 50, denominator: 100 }));
    assert_eq!(driver.state(), DriverState::Render);
    assert_eq!(driver.end_frame(), Ok(()));
    assert_eq!(driver.state(), DriverState::Ready);

    assert_eq!(driver.begin_frame(Some(1_175)), Ok(Ratio { numerator: 175, denominator: 100 }));
    assert_eq!(driver.timer().get_time_delta(), Ratio { numerator: 125, denominator: 100 });
    assert_eq!(driver.end_frame(), Ok(()));

    assert_eq!(driver.shutdown(), Ok(()));
    assert_eq!(driver.state(), DriverState::Terminated);
}

#[test]
fn driver_takes_one_reading_for_each_frame() {
    let mut driver = driver();
    driver.attach().unwrap();
    driver.begin_frame(Some(1_010)).unwrap();
    driver.end_frame().unwrap();
    driver.begin_frame(Some(1_040)).unwrap();
    assert_eq!(driver.timer().get_time_delta(), Ratio { numerator: 30, denominator: 100 });
    assert_eq!(driver.end_frame(), Ok(()));
    assert_eq!(driver.timer().get_time_delta(), Ratio { numerator: 30, denominator: 100 });
    assert_eq!(driver.timer().get_time_total(), Ratio { numerator: 40, denominator: 100 });
}

#[test]
fn driver_refuses_a_frame_before_a_surface_is_attached() {
    let mut driver = driver();
    assert_eq!(driver.begin_frame(Some(1_050)), Err(DriverError::OutOfTurn));
    assert_eq!(driver.state(), DriverState::Uninitialized);
    assert_eq!(driver.timer().get_time_total(), Ratio { numerator: 0, denominator: 100 });
    assert_eq!(driver.end_frame(), Err(DriverError::OutOfTurn));
    assert_eq!(driver.state(), DriverState::Uninitialized);
}

#[test]
fn driver_is_attached_once() {
    let mut driver = driver();
    assert_eq!(driver.attach(), Ok(()));
    assert_eq!(driver.attach(), Err(DriverError::OutOfTurn));
    assert_eq!(driver.state(), DriverState::Ready);
    driver.begin_frame(Some(1_001)).unwrap();
    assert_eq!(driver.attach(), Err(DriverError::OutOfTurn));
    assert_eq!(driver.state(), DriverState::Render);
}

#[test]
fn driver_does_not_begin_a_frame_within_a_frame() {
    let mut driver = driver();
    driver.attach().unwrap();
    driver.begin_frame(Some(1_020)).unwrap();
    assert_eq!(driver.begin_frame(Some(1_030)), Err(DriverError::OutOfTurn));
    assert_eq!(driver.state(), DriverState::Render);
    assert_eq!(driver.timer().get_time_total(), Ratio { numerator: 20, denominator: 100 });
}

#[test]
fn driver_stays_ready_when_the_counter_cannot_be_read() {
    let mut driver = driver();
    driver.attach().unwrap();
    driver.begin_frame(Some(1_020)).unwrap();
    driver.end_frame().unwrap();
    assert_eq!(driver.begin_frame(None), Err(DriverError::ClockUnavailable));
    assert_eq!(driver.state(), DriverState::Ready);
    assert_eq!(driver.timer().get_time_total(), Ratio { numerator: 20, denominator: 100 });
    assert_eq!(driver.timer().get_time_delta(), Ratio { numerator: 0, denominator: 100 });
}

#[test]
fn driver_is_not_shut_down_in_the_middle_of_a_frame() {
    let mut driver = driver();
    driver.attach().unwrap();
    driver.begin_frame(Some(1_020)).unwrap();
    assert_eq!(driver.shutdown(), Err(DriverError::OutOfTurn));
    assert_eq!(driver.state(), DriverState::Render);
    assert_eq!(driver.end_frame(), Ok(()));
    assert_eq!(driver.shutdown(), Ok(()));
}

#[test]
fn driver_can_be_shut_down_before_a_surface_is_attached() {
    let mut driver = driver();
    assert_eq!(driver.shutdown(), Ok(()));
    assert_eq!(driver.state(), DriverState::Terminated);
}

#[test]
fn driver_that_has_terminated_takes_no_further_step() {
    let mut driver = driver();
    driver.attach().unwrap();
    driver.shutdown().unwrap();
    assert_eq!(driver.attach(), Err(DriverError::OutOfTurn));
    assert_eq!(driver.begin_frame(Some(2_000)), Err(DriverError::OutOfTurn));
    assert_eq!(driver.end_frame(), Err(DriverError::OutOfTurn));
    assert_eq!(driver.shutdown(), Err(DriverError::OutOfTurn));
    assert_eq!(driver.state(), DriverState::Terminated);
    assert_eq!(driver.timer().get_time_total(), Ratio { numerator: 0, denominator: 100 });
}
