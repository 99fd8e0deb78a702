use chrono::{DateTime, FixedOffset, Local, TimeZone, Utc};
use ndarray::Array1;
use scirs2_interpolate::{MonotonicInterpolator, MonotonicMethod};
use solar_clock::anchors::{Point, SolarTargets};
use solar_clock::calendar::{solar_day, solar_window};
use solar_clock::clock::{solar_clock_time, ClockStep, SolarClockError, SolarClockTime};
use solar_clock::events::{calculate_solar_data, DayOffsets, SolarData};
use solar_clock::instant::{Instant, TimeOfDay, UtcOffset};
use std::f64::consts::PI;

const SOLAR_TIMEZONE_OFFSET: i32 = 3600;
const TARGET_SUNRISE_HOUR: u32 = 8;
const TARGET_TRANSIT_HOUR: u32 = 14;
const TARGET_SUNSET_HOUR: u32 = 20;

#[derive(Debug, Clone, Copy)]
struct Coordinates {
    latitude: f64,
    longitude: f64,
}

const LOCAL_COORDINATES: Coordinates =
    Coordinates { latitude: 38.34599467937726, longitude: -0.49068757240971655 };

fn day_offsets(ordinal: u32, lat: f64, lon: f64) -> DayOffsets {
    let day = ordinal as f64;
    let tt_decl = 2.0 * PI * day / 366.0;
    let decl_deg = 0.322003
        - 22.971 * tt_decl.cos()
        - 0.357898 * (2.0 * tt_decl).cos()
        - 0.14398 * (3.0 * tt_decl).cos()
        + 3.94638 * tt_decl.sin()
        + 0.019334 * (2.0 * tt_decl).sin()
        + 0.05928 * (3.0 * tt_decl).sin();
    let decl_rad = decl_deg.to_radians();
    let tt_time = (279.134 + 0.985647 * day).to_radians();
    let time_adjust_hours = (5.0323 - 100.976 * tt_time.sin()
        + 595.275 * (2.0 * tt_time).sin()
        + 3.6858 * (3.0 * tt_time).sin()
        - 12.47 * (4.0 * tt_time).sin()
        - 430.847 * tt_time.cos()
        + 12.5024 * (2.0 * tt_time).cos()
        + 18.25 * (3.0 * tt_time).cos())
        / 3600.0;
    let ton_hours = 12.0 - lon / 15.0 - time_adjust_hours;
    let lat_rad = lat.to_radians();
    let zenith_rad = 90.833f64.to_radians();
    let cos_ha =
        (zenith_rad.cos() / (lat_rad.cos() * decl_rad.cos())) - (lat_rad.tan() * decl_rad.tan());
    let horizon = if cos_ha.abs() <= 1.0 {
        let ha_hours = cos_ha.acos() * (12.0 / PI);
        Some((
            ((ton_hours - ha_hours) * 3_600_000_000.0) as i64,
            ((ton_hours + ha_hours) * 3_600_000_000.0) as i64,
        ))
    } else {
        None
    };
    DayOffsets { transit: (ton_hours * 3_600_000_000.0) as i64, horizon }
}

fn solar_data_for(date: Instant, lat: f64, lon: f64) -> SolarData {
    let day = solar_day(date);
    calculate_solar_data(date, day_offsets(day.ordinal, lat, lon)).expect("events in range")
}

fn to_instant<Tz: TimeZone>(dt: &DateTime<Tz>) -> Instant {
    Instant::new(dt.timestamp(), dt.timestamp_subsec_nanos()).expect("instant in range")
}

fn to_date_time(time: SolarClockTime) -> DateTime<FixedOffset> {
    let zone = FixedOffset::east_opt(time.offset.seconds).unwrap();
    let utc = DateTime::from_timestamp(time.utc.secs, time.utc.nanos).unwrap();
    zone.from_utc_datetime(&utc.naive_utc())
}

fn seconds_of(nanos: i128) -> f64 {
    nanos.div_euclid(1_000_000_000) as f64 + nanos.rem_euclid(1_000_000_000) as f64 / 1e9
}

fn interpolate(points: &[Point], input: Instant) -> Result<f64, SolarClockError> {
    let x_arr = Array1::from(points.iter().map(|p| seconds_of(p.x)).collect::<Vec<f64>>());
    let y_arr = Array1::from(points.iter().map(|p| p.y as f64 / 1e9).collect::<Vec<f64>>());
    let at = input.secs as f64 + input.nanos as f64 / 1e9;
    MonotonicInterpolator::new(&x_arr.view(), &y_arr.view(), MonotonicMethod::Pchip, false)
        .and_then(|curve| curve.evaluate(at))
        .map_err(|_| SolarClockError::InterpolationDomainError)
}

fn calculate_solar_clock(
    dt_input: DateTime<Local>,
    coordinates: Coordinates,
    targets: SolarTargets,
) -> Option<(f64, DateTime<FixedOffset>)> {
    let input = to_instant(&dt_input.with_timezone(&Utc));
    let zone = UtcOffset::east(SOLAR_TIMEZONE_OFFSET).unwrap();
    let days = solar_window(input)?;
    let offsets = [
        day_offsets(days[0].ordinal, coordinates.latitude, coordinates.longitude),
        day_offsets(days[1].ordinal, coordinates.latitude, coordinates.longitude),
        day_offsets(days[2].ordinal, coordinates.latitude, coordinates.longitude),
    ];
    match solar_clock::clock::calculate_solar_clock(input, offsets, targets, zone).ok()? {
        ClockStep::Shown { time, delta } => Some((delta as f64 / 1e9, to_date_time(time))),
        ClockStep::Interpolate { points } => {
            let delta_seconds = interpolate(&points, input).ok()?;
            let whole = delta_seconds as i64;
            let rest = ((delta_seconds - whole as f64) * 1e9) as i64;
            Some((delta_seconds, to_date_time(solar_clock_time(input, whole, rest, zone))))
        }
    }
}

fn targets_at(sunrise: u32, transit: u32, sunset: u32) -> SolarTargets {
    SolarTargets::new(
        TimeOfDay::from_hms(sunrise, 0, 0).unwrap(),
        TimeOfDay::from_hms(transit, 0, 0).unwrap(),
        TimeOfDay::from_hms(sunset, 0, 0).unwrap(),
    )
    .unwrap()
}

fn assert_near_time(dt: DateTime<FixedOffset>, expected_hms: &str) {
    let expected_str = dt.format("%Y-%m-%d").to_string() + " " + expected_hms + " +0100";
    let expected = DateTime::parse_from_str(&expected_str, "%Y-%m-%d %H:%M:%S %z")
        .expect("Failed to parse expected time");

    let diff = dt.signed_duration_since(expected).num_seconds().abs();
    assert!(
        diff <= 2,
        "Time {} is too far from expected {} (diff {}s)",
        dt,
        expected_hms,
        diff
    );
}

#[test]
fn test_solar_clock_algorithm_with_fixed_reference_date() {
    let coordinates = Coordinates { latitude: 38.34599467937726, longitude: -0.49068757240971655 };

    let test_targets = targets_at(8, 14, 20);

    let tz = FixedOffset::east_opt(3600).unwrap();

    let sunrise_input = tz.with_ymd_and_hms(2026, 2, 3, 8, 6, 6).unwrap().with_timezone(&Local);
    let transit_input = tz.with_ymd_and_hms(2026, 2, 3, 13, 15, 43).unwrap().with_timezone(&Local);
    let sunset_input = tz.with_ymd_and_hms(2026, 2, 3, 18, 25, 19).unwrap().with_timezone(&Local);

    let (_, solar_sunrise) = calculate_solar_clock(sunrise_input, coordinates, test_targets)
        .expect("Sunrise calc failed");
    let (_, solar_transit) = calculate_solar_clock(transit_input, coordinates, test_targets)
        .expect("Transit calc failed");
    let (_, solar_sunset) = calculate_solar_clock(sunset_input, coordinates, test_targets)
        .expect("Sunset calc failed");

    assert_near_time(solar_sunrise, "08:00:00");
    assert_near_time(solar_transit, "14:00:00");
    assert_near_time(solar_sunset, "20:00:00");

    assert_eq!(solar_sunrise.date_naive(), chrono::NaiveDate::from_ymd_opt(2026, 2, 3).unwrap());
    assert_eq!(solar_sunset.date_naive(), chrono::NaiveDate::from_ymd_opt(2026, 2, 3).unwrap());
}

#[test]
fn test_solar_clock_targets_for_current_date() {
    let coordinates = LOCAL_COORDINATES;

    let test_targets = targets_at(TARGET_SUNRISE_HOUR, TARGET_TRANSIT_HOUR, TARGET_SUNSET_HOUR);

    let now = Local::now();
    let target_date_utc = now
        .date_naive()
        .and_hms_opt(12, 0, 0)
        .unwrap()
        .and_local_timezone(Local)
        .unwrap()
        .with_timezone(&Utc);

    let solar_data =
        solar_data_for(to_instant(&target_date_utc), coordinates.latitude, coordinates.longitude);

    let target_sunrise_time = format!("{:02}:00:00", TARGET_SUNRISE_HOUR);
    let target_transit_time = format!("{:02}:00:00", TARGET_TRANSIT_HOUR);
    let target_sunset_time = format!("{:02}:00:00", TARGET_SUNSET_HOUR);

    if let Some(sunrise_utc) = solar_data.sunrise {
        let sunrise_local = to_date_time(SolarClockTime {
            utc: sunrise_utc,
            offset: UtcOffset::east(0).unwrap(),
        })
        .with_timezone(&Local);
        let (_, solar_sunrise) = calculate_solar_clock(sunrise_local, coordinates, test_targets)
            .expect("Sunrise calc failed");
        assert_near_time(solar_sunrise, &target_sunrise_time);
    } else {
        println!("Skipping sunrise check (polar night/day)");
    }

    let transit_local = to_date_time(SolarClockTime {
        utc: solar_data.transit,
        offset: UtcOffset::east(0).unwrap(),
    })
    .with_timezone(&Local);
    let (_, solar_transit) = calculate_solar_clock(transit_local, coordinates, test_targets)
        .expect("Transit calc failed");
    assert_near_time(solar_transit, &target_transit_time);

    if let Some(sunset_utc) = solar_data.sunset {
        let sunset_local = to_date_time(SolarClockTime {
            utc: sunset_utc,
            offset: UtcOffset::east(0).unwrap(),
        })
        .with_timezone(&Local);
        let (_, solar_sunset) = calculate_solar_clock(sunset_local, coordinates, test_targets)
            .expect("Sunset calc failed");
        assert_near_time(solar_sunset, &target_sunset_time);
    } else {
        println!("Skipping sunset check (polar night/day)");
    }
}

#[test]
fn test_solar_clock_continuity_across_dst_change() {
    let coordinates = LOCAL_COORDINATES;
    let targets = targets_at(TARGET_SUNRISE_HOUR, TARGET_TRANSIT_HOUR, TARGET_SUNSET_HOUR);

    let offset_cet = FixedOffset::east_opt(3600).unwrap();
    let offset_cest = FixedOffset::east_opt(7200).unwrap();

    let dt_a = offset_cet.with_ymd_and_hms(2026, 3, 29, 2, 0, 0).unwrap().with_timezone(&Local);
    let dt_b = offset_cest.with_ymd_and_hms(2026, 3, 29, 3, 0, 0).unwrap().with_timezone(&Local);

    let (_, solar_a) = calculate_solar_clock(dt_a, coordinates, targets).expect("Calc A failed");
    let (_, solar_b) = calculate_solar_clock(dt_b, coordinates, targets).expect("Calc B failed");

    assert_eq!(
        solar_a, solar_b,
        "Solar clock should be identical for the same UTC instant despite civil time jump"
    );
}

#[test]
fn event_instants_show_their_targets_exactly() {
    let zone = UtcOffset::east(SOLAR_TIMEZONE_OFFSET).unwrap();
    let targets = targets_at(8, 14, 20);
    let noon = Instant::new(1_770_120_000, 0).unwrap();
    let data = solar_data_for(noon, LOCAL_COORDINATES.latitude, LOCAL_COORDINATES.longitude);
    let days = solar_window(noon).unwrap();
    let offsets = [
        day_offsets(days[0].ordinal, LOCAL_COORDINATES.latitude, LOCAL_COORDINATES.longitude),
        day_offsets(days[1].ordinal, LOCAL_COORDINATES.latitude, LOCAL_COORDINATES.longitude),
        day_offsets(days[2].ordinal, LOCAL_COORDINATES.latitude, LOCAL_COORDINATES.longitude),
    ];
    let sunrise = data.sunrise.unwrap();
    match solar_clock::clock::calculate_solar_clock(sunrise, offsets, targets, zone) {
        Ok(ClockStep::Shown { time, delta }) => {
            // 2026-02-03T08:00:00+01:00
            assert_eq!(time.utc, Instant::new(1_770_102_000, 0).unwrap());
            assert_eq!(time.offset, zone);
            assert_eq!(delta, 1_770_102_000_000_000_000 - sunrise.to_nanos());
            assert_eq!(time.seconds_of_day(), 8 * 3600);
        }
        other => panic!("expected the shown time, got {:?}", other),
    }
    match solar_clock::clock::calculate_solar_clock(data.transit, offsets, targets, zone) {
        Ok(ClockStep::Shown { time, .. }) => {
            assert_eq!(time.utc, Instant::new(1_770_123_600, 0).unwrap());
        }
        other => panic!("expected the shown time, got {:?}", other),
    }
}

#[test]
fn curve_passes_through_its_anchors() {
    let zone = UtcOffset::east(SOLAR_TIMEZONE_OFFSET).unwrap();
    let targets = targets_at(8, 14, 20);
    let noon = Instant::new(1_770_120_000, 0).unwrap();
    let days = solar_window(noon).unwrap();
    let offsets = [
        day_offsets(days[0].ordinal, LOCAL_COORDINATES.latitude, LOCAL_COORDINATES.longitude),
        day_offsets(days[1].ordinal, LOCAL_COORDINATES.latitude, LOCAL_COORDINATES.longitude),
        day_offsets(days[2].ordinal, LOCAL_COORDINATES.latitude, LOCAL_COORDINATES.longitude),
    ];
    let points = match solar_clock::clock::calculate_solar_clock(noon, offsets, targets, zone) {
        Ok(ClockStep::Interpolate { points }) => points,
        other => panic!("expected anchors, got {:?}", other),
    };
    assert_eq!(points.len(), 9);
    for p in points.iter() {
        let at = Instant::from_nanos(p.x).unwrap();
        let delta = interpolate(&points, at).unwrap();
        assert_eq!(delta, p.y as f64 / 1e9);
    }
}

#[test]
fn solar_clock_does_not_run_backwards_between_anchors() {
    let zone = UtcOffset::east(SOLAR_TIMEZONE_OFFSET).unwrap();
    let targets = targets_at(8, 14, 20);
    let noon = Instant::new(1_770_120_000, 0).unwrap();
    let days = solar_window(noon).unwrap();
    let offsets = [
        day_offsets(days[0].ordinal, LOCAL_COORDINATES.latitude, LOCAL_COORDINATES.longitude),
        day_offsets(days[1].ordinal, LOCAL_COORDINATES.latitude, LOCAL_COORDINATES.longitude),
        day_offsets(days[2].ordinal, LOCAL_COORDINATES.latitude, LOCAL_COORDINATES.longitude),
    ];
    let points = match solar_clock::clock::calculate_solar_clock(noon, offsets, targets, zone) {
        Ok(ClockStep::Interpolate { points }) => points,
        other => panic!("expected anchors, got {:?}", other),
    };
    let first = points[0].x / 1_000_000_000 + 1;
    let last = points[points.len() - 1].x / 1_000_000_000 - 1;
    let mut shown_before = f64::MIN;
    let mut secs = first;
    while secs <= last {
        let at = Instant::new(secs as i64, 0).unwrap();
        let shown = secs as f64 + interpolate(&points, at).unwrap();
        assert!(shown >= shown_before, "clock ran backwards at {}", secs);
        shown_before = shown;
        secs += 600;
    }
}
