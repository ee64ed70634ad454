use chrono::{TimeZone, Utc};
use hackdose::data::{DataPoint, EnergyData};

fn ms(y: i32, mo: u32, d: u32, h: u32, mi: u32, s: u32) -> i64 {
    Utc.with_ymd_and_hms(y, mo, d, h, mi, s)
        .unwrap()
        .timestamp_millis()
}

#[test]
fn gets_data_points() {
    let mut energy_data = EnergyData::new();
    let t_lower = ms(2022, 02, 02, 0, 0, 0);
    let t_upper = ms(2022, 04, 04, 0, 3, 0);
    let t_1 = ms(2022, 04, 04, 0, 1, 0);
    let t_2 = ms(2022, 04, 04, 0, 2, 0);

    let x_1 = 1;
    let x_2 = 2;

    energy_data.put(DataPoint { date: t_1, value: x_1 });
    energy_data.put(DataPoint { date: t_2, value: x_2 });

    let points = energy_data.get_interval(t_lower, t_upper);
    assert_eq!(
        points,
        vec![
            DataPoint { date: t_1, value: x_1 },
            DataPoint { date: t_2, value: x_2 }
        ]
    )
}

#[test]
fn omits_old_data_points() {
    let mut energy_data = EnergyData::new();
    let t_lower = ms(2022, 04, 04, 0, 1, 0);
    let t_upper = ms(2022, 04, 04, 0, 3, 0);

    let t_1 = ms(2022, 04, 04, 0, 0, 0);
    let t_2 = ms(2022, 04, 04, 0, 2, 0);
    let t_3 = ms(2022, 04, 04, 0, 4, 0);

    energy_data.put(DataPoint { date: t_1, value: 1 });
    energy_data.put(DataPoint { date: t_2, value: 2 });
    energy_data.put(DataPoint { date: t_3, value: 3 });

    let points = energy_data.get_interval(t_lower, t_upper);
    assert_eq!(points, vec![DataPoint { date: t_2, value: 2 }])
}

#[test]
fn removes_old_data_points() {
    let mut energy_data = EnergyData::new();
    let t_lower = ms(2022, 04, 04, 11, 11, 11);
    let t_upper = ms(2022, 08, 04, 11, 11, 11);

    let t_1 = ms(2022, 06, 10, 11, 11, 11);
    let t_2 = ms(2022, 07, 05, 11, 11, 11);
    let t_3 = ms(2022, 07, 05, 11, 12, 11);

    energy_data.put(DataPoint { date: t_1, value: 1 });
    energy_data.put(DataPoint { date: t_2, value: 2 });
    energy_data.put(DataPoint { date: t_3, value: 3 });

    let points = energy_data.get_interval(t_lower, t_upper);
    assert_eq!(
        points,
        vec![
            DataPoint { date: t_2, value: 2 },
            DataPoint { date: t_3, value: 3 }
        ]
    )
}

#[test]
fn interval_is_half_open() {
    let mut e = EnergyData::new();
    e.put(DataPoint { date: 1000, value: 1 });
    e.put(DataPoint { date: 2000, value: 2 });
    assert_eq!(e.get_interval(1000, 2000), vec![DataPoint { date: 1000, value: 1 }]);
    assert_eq!(e.get_interval(1001, 2001), vec![DataPoint { date: 2000, value: 2 }]);
    assert!(e.get_interval(2000, 1000).is_empty());
}

#[test]
fn keeps_sample_exactly_seven_days_old() {
    let week: i64 = 7 * 24 * 60 * 60 * 1000;
    let mut e = EnergyData::new();
    e.put(DataPoint { date: 0, value: 1 });
    e.put(DataPoint { date: week, value: 2 });
    assert_eq!(e.len(), 2);
    e.put(DataPoint { date: week + 1, value: 3 });
    assert_eq!(e.len(), 2);
    assert_eq!(
        e.get_interval(i64::MIN, i64::MAX),
        vec![
            DataPoint { date: week, value: 2 },
            DataPoint { date: week + 1, value: 3 }
        ]
    );
}

#[test]
fn put_drops_every_old_sample_at_once() {
    let day: i64 = 24 * 60 * 60 * 1000;
    let mut e = EnergyData::new();
    for i in 0..5 {
        e.put(DataPoint { date: i * day, value: i as i32 });
    }
    e.put(DataPoint { date: 20 * day, value: 9 });
    assert_eq!(e.get_interval(i64::MIN, i64::MAX), vec![DataPoint { date: 20 * day, value: 9 }]);
}

#[test]
fn data_point_tuple_round_trip() {
    let p = DataPoint { date: 1234, value: -5 };
    assert_eq!(p.to_tuple(), (1234, -5));
    assert_eq!(DataPoint::from_tuple(&(1234, -5)), p);
}
