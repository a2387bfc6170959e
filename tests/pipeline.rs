use weather_bot::decimal::{parse_decimal, Decimal};
use weather_bot::error::{check_status, RequestError};
use weather_bot::geo::{
    geo_request_url, parse_geo_response, parse_position, resolve_geo_response, GeoCoordinate,
};
use weather_bot::json::{get_member, get_text, read_json, JsonValue};
use weather_bot::series::{ForecastSeries, Hours};
use weather_bot::text::same_text;
use weather_bot::time::{round_to_near_hour, Timestamp};
use weather_bot::weather::{
    forecast_request_url, parse_api_response, parse_entry, parse_forecasts, Weather,
};
use weather_bot::weather_codes::{get_weather_code, WeatherCode};

fn value(d: Decimal) -> f64 {
    d.mantissa as f64 / 10f64.powi(d.scale as i32)
}

fn ts(text: &str) -> Timestamp {
    Timestamp::parse_rfc3339(text).unwrap()
}

fn entry(time: &str, pressure: &str, temperature: &str) -> String {
    format!(
        "{{\"time\":\"{}\",\"data\":{{\"instant\":{{\"details\":{{\"air_pressure_at_sea_level\":{},\"air_temperature\":{},\"cloud_area_fraction\":12.5,\"relative_humidity\":70.1,\"wind_from_direction\":180,\"wind_speed\":3.4}}}},\"next_1_hours\":{{\"summary\":{{\"symbol_code\":\"rain\"}}}},\"next_6_hours\":{{\"summary\":{{\"symbol_code\":\"cloudy\"}}}},\"next_12_hours\":{{\"summary\":{{\"symbol_code\":\"not-a-real-code\"}}}}}}}}",
        time, pressure, temperature
    )
}

fn payload(entries: &[String]) -> String {
    format!(
        "{{\"type\":\"Feature\",\"properties\":{{\"timeseries\":[{}]}}}}",
        entries.join(",")
    )
}

fn geo_answer(pos: &str) -> String {
    format!(
        "{{\"response\":{{\"GeoObjectCollection\":{{\"featureMember\":[{{\"GeoObject\":{{\"name\":\"Moscow\",\"Point\":{{\"pos\":\"{}\"}}}}}}]}}}}}}",
        pos
    )
}

fn moscow() -> GeoCoordinate {
    GeoCoordinate::new(
        Decimal { mantissa: 5575, scale: 2 },
        Decimal { mantissa: 3761, scale: 2 },
    )
    .unwrap()
}

#[test]
fn classify_known_and_unknown_codes() {
    assert_eq!(get_weather_code("clearsky"), WeatherCode::ClearSky);
    assert_eq!(get_weather_code("not-a-real-code"), WeatherCode::ClearSky);
    assert_eq!(get_weather_code("rain"), WeatherCode::Rain);
    assert_eq!(get_weather_code("heavysnowshowersandthunder"), WeatherCode::HeavySnowShowersAndThunder);
    assert_eq!(get_weather_code("lightsnow"), WeatherCode::ClearSky);
    assert_eq!(get_weather_code("lightrainandthunder"), WeatherCode::ClearSky);
    assert_eq!(get_weather_code("lightsnowshowers"), WeatherCode::LightSnowShowers);
    assert_eq!(get_weather_code("sleet"), WeatherCode::Sleet);
}

#[test]
fn classify_is_exact_and_case_sensitive() {
    assert_eq!(get_weather_code("Rain"), WeatherCode::ClearSky);
    assert_eq!(get_weather_code("rain_day"), WeatherCode::ClearSky);
    assert_eq!(get_weather_code(""), WeatherCode::ClearSky);
}

#[test]
fn same_text_compares_characters() {
    assert!(same_text("fog", "fog"));
    assert!(!same_text("fog", "fo"));
    assert!(!same_text("fog", "fig"));
}

#[test]
fn decimals_read_exactly() {
    assert_eq!(parse_decimal("18.5"), Some(Decimal { mantissa: 185, scale: 1 }));
    assert_eq!(parse_decimal("-3.25"), Some(Decimal { mantissa: -325, scale: 2 }));
    assert_eq!(parse_decimal("1013"), Some(Decimal { mantissa: 1013, scale: 0 }));
    assert_eq!(parse_decimal("0.0"), Some(Decimal { mantissa: 0, scale: 1 }));
    assert_eq!(parse_decimal("123456789012345678"), Some(Decimal { mantissa: 123456789012345678, scale: 0 }));
}

#[test]
fn decimals_read_signs_exponents_and_bare_points() {
    assert_eq!(parse_decimal("+5"), Some(Decimal { mantissa: 5, scale: 0 }));
    assert_eq!(parse_decimal(".5"), Some(Decimal { mantissa: 5, scale: 1 }));
    assert_eq!(parse_decimal("5."), Some(Decimal { mantissa: 5, scale: 0 }));
    assert_eq!(parse_decimal("1e1"), Some(Decimal { mantissa: 1, scale: -1 }));
    assert_eq!(parse_decimal("1E2"), Some(Decimal { mantissa: 1, scale: -2 }));
    assert_eq!(parse_decimal("-2.5e-3"), Some(Decimal { mantissa: -25, scale: 4 }));
    assert_eq!(parse_decimal("2.5e+1"), Some(Decimal { mantissa: 25, scale: 0 }));
    assert_eq!(parse_decimal("9e18"), Some(Decimal { mantissa: 9, scale: -18 }));
    assert_eq!(parse_decimal("1e300"), Some(Decimal { mantissa: 1, scale: -300 }));
    assert_eq!(parse_decimal("1e-300"), Some(Decimal { mantissa: 1, scale: 300 }));
    assert_eq!(
        parse_decimal("12345678901234567890"),
        Some(Decimal { mantissa: 12345678901234567890, scale: 0 })
    );
    assert_eq!(
        parse_decimal("-12345678901234567890123456789012345678"),
        Some(Decimal { mantissa: -12345678901234567890123456789012345678, scale: 0 })
    );
    assert_eq!(
        parse_decimal("2.9802322387695312e-8"),
        Some(Decimal { mantissa: 29802322387695312, scale: 24 })
    );
}

#[test]
fn decimals_reject_other_text() {
    assert_eq!(parse_decimal(""), None);
    assert_eq!(parse_decimal("-"), None);
    assert_eq!(parse_decimal("."), None);
    assert_eq!(parse_decimal("e5"), None);
    assert_eq!(parse_decimal("1e"), None);
    assert_eq!(parse_decimal("1e+"), None);
    assert_eq!(parse_decimal("123456789012345678901234567890123456789"), None);
    assert_eq!(parse_decimal("1e0000000001"), None);
    assert_eq!(parse_decimal("+-1"), None);
    assert_eq!(parse_decimal("1.2.3"), None);
    assert_eq!(parse_decimal("12a"), None);
}

#[test]
fn position_is_longitude_then_latitude() {
    let c = parse_position("37.61 55.75").unwrap();
    assert_eq!(c.latitude, Decimal { mantissa: 5575, scale: 2 });
    assert_eq!(c.longitude, Decimal { mantissa: 3761, scale: 2 });
    let c = parse_position("-122.4194 37.7749").unwrap();
    assert_eq!(c.latitude, Decimal { mantissa: 377749, scale: 4 });
    assert_eq!(c.longitude, Decimal { mantissa: -1224194, scale: 4 });
}

#[test]
fn position_reads_exponents() {
    let c = parse_position("10 1e1").unwrap();
    assert_eq!(c.latitude, Decimal { mantissa: 1, scale: -1 });
    assert_eq!(c.longitude, Decimal { mantissa: 10, scale: 0 });
}

#[test]
fn position_needs_two_numbers() {
    assert_eq!(parse_position("37.61"), Err(RequestError::Parse));
    assert_eq!(parse_position("37.61 55.75 1"), Err(RequestError::Parse));
    assert_eq!(parse_position("37.61  55.75"), Err(RequestError::Parse));
    assert_eq!(parse_position("east north"), Err(RequestError::Parse));
    assert_eq!(parse_position(""), Err(RequestError::Parse));
}

#[test]
fn coordinates_out_of_range_are_refused() {
    assert_eq!(parse_position("10 90.5"), Err(RequestError::OutOfRange));
    assert_eq!(parse_position("10 1e2"), Err(RequestError::OutOfRange));
    assert_eq!(parse_position("1.8e2 9e1"), Ok(GeoCoordinate {
        latitude: Decimal { mantissa: 9, scale: -1 },
        longitude: Decimal { mantissa: 18, scale: -1 },
    }));
    assert_eq!(parse_position("18.1e1 0"), Err(RequestError::OutOfRange));
    assert_eq!(parse_position("180.01 10"), Err(RequestError::OutOfRange));
    assert!(parse_position("-180 -90").is_ok());
    assert_eq!(
        GeoCoordinate::new(Decimal { mantissa: 91, scale: 0 }, Decimal { mantissa: 0, scale: 0 }),
        Err(RequestError::OutOfRange)
    );
    assert!(GeoCoordinate::new(
        Decimal { mantissa: 9_000_000_000_000_000_000, scale: 20 },
        Decimal { mantissa: 0, scale: 0 }
    )
    .is_ok());
}

#[test]
fn geocoding_answer_is_read() {
    let doc = read_json(&geo_answer("37.617698 55.755864")).unwrap();
    let c = parse_geo_response(&doc).unwrap();
    assert_eq!(c.latitude, Decimal { mantissa: 55755864, scale: 6 });
    assert_eq!(c.longitude, Decimal { mantissa: 37617698, scale: 6 });
}

#[test]
fn geocoding_answer_without_position_is_a_parse_error() {
    let doc = read_json("{\"response\":{\"GeoObjectCollection\":{\"featureMember\":[]}}}").unwrap();
    assert_eq!(parse_geo_response(&doc), Err(RequestError::Parse));
    let doc = read_json("{\"response\":{}}").unwrap();
    assert_eq!(parse_geo_response(&doc), Err(RequestError::Parse));
}

#[test]
fn geocoding_status_decides_first() {
    assert_eq!(resolve_geo_response(403, &geo_answer("37.61 55.75")), Err(RequestError::UpstreamAuth));
    assert_eq!(resolve_geo_response(500, &geo_answer("37.61 55.75")), Err(RequestError::Upstream(500)));
    assert_eq!(resolve_geo_response(200, "not json"), Err(RequestError::Parse));
    assert_eq!(resolve_geo_response(200, &geo_answer("37.61 55.75")), Ok(moscow()));
}

#[test]
fn status_codes_sort() {
    assert_eq!(check_status(200), Ok(()));
    assert_eq!(check_status(204), Ok(()));
    assert_eq!(check_status(403), Err(RequestError::UpstreamAuth));
    assert_eq!(check_status(404), Err(RequestError::Upstream(404)));
}

#[test]
fn geocoding_url_holds_key_and_address() {
    assert_eq!(
        geo_request_url("key-123", "Moscow"),
        "https://geocode-maps.yandex.ru/1.x/?apikey=key-123&geocode=Moscow&format=json"
    );
}

#[test]
fn json_members_and_text() {
    let doc = read_json("{\"a\":{\"b\":\"c\"},\"n\":1.5}").unwrap();
    let a = get_member(&doc, "a").unwrap();
    assert_eq!(get_text(get_member(a, "b").unwrap()), Some("c"));
    assert!(get_member(&doc, "z").is_none());
    assert!(matches!(get_member(&doc, "n"), Some(JsonValue::Number(_))));
    assert!(read_json("{\"a\":").is_none());
}

#[test]
fn rfc3339_is_read_with_its_offset() {
    let t = ts("2023-07-15T08:00:00Z");
    assert_eq!(t, Timestamp { seconds: 1689408000, nanos: 0, offset: 0 });
    let t = ts("2023-07-15T11:00:00+03:00");
    assert_eq!(t, Timestamp { seconds: 1689408000, nanos: 0, offset: 10800 });
    assert!(t.same_instant(&ts("2023-07-15T08:00:00Z")));
    assert_eq!(Timestamp::parse_rfc3339("yesterday"), None);
    assert_eq!(Timestamp::parse_rfc3339("2023-13-15T08:00:00Z"), None);
}

#[test]
fn fractions_of_a_second_are_kept() {
    let t = ts("2023-07-15T08:00:00.25Z");
    assert_eq!(t, Timestamp { seconds: 1689408000, nanos: 250_000_000, offset: 0 });
    assert!(!t.same_instant(&ts("2023-07-15T08:00:00Z")));
    let text = payload(&[
        entry("2023-07-15T08:00:00Z", "1000.0", "10.0"),
        entry("2023-07-15T08:00:00.5Z", "1001.0", "11.0"),
    ]);
    let series = parse_api_response(&text).unwrap();
    assert_eq!(series.len(), 2);
    let f = series.get(&ts("2023-07-15T08:00:00.5Z")).unwrap();
    assert_eq!(value(f.air_temperature), 11.0);
    let r = round_to_near_hour(&ts("2023-07-15T10:59:59.9Z"));
    assert_eq!(r, ts("2023-07-15T11:00:00Z"));
}

#[test]
fn round_moves_to_next_hour() {
    let r = round_to_near_hour(&ts("2023-07-15T10:15:42+03:00"));
    assert_eq!(r, ts("2023-07-15T11:00:00+03:00"));
    assert_eq!(r.offset, 10800);
    assert_eq!(r.nanos, 0);
    let r = round_to_near_hour(&ts("2023-07-15T10:00:00Z"));
    assert_eq!(r, ts("2023-07-15T11:00:00Z"));
}

#[test]
fn round_rolls_over_midnight() {
    let r = round_to_near_hour(&ts("2023-07-15T23:40:00+05:00"));
    assert_eq!(r, ts("2023-07-16T00:00:00+05:00"));
    let r = round_to_near_hour(&ts("2023-12-31T23:59:59Z"));
    assert_eq!(r, ts("2024-01-01T00:00:00Z"));
    let r = round_to_near_hour(&ts("1969-12-31T23:30:00-02:00"));
    assert_eq!(r, ts("1970-01-01T00:00:00-02:00"));
}

#[test]
fn timestamp_parts_are_checked() {
    assert_eq!(Timestamp::from_parts(10, 5, 3600), Some(Timestamp { seconds: 10, nanos: 5, offset: 3600 }));
    assert_eq!(Timestamp::from_parts(10, 0, 86400), None);
}

#[test]
fn sample_payload_round_trips() {
    let text = payload(&[entry("2023-07-15T08:00:00Z", "1013.0", "18.5")]);
    let w = Weather::new(moscow(), &text).unwrap();
    assert_eq!(w.forecasts.len(), 1);
    let f = w.get_forecast_for_hour(&ts("2023-07-15T08:00:00Z")).unwrap();
    assert_eq!(value(f.air_pressure_at_sea_level), 1013.0);
    assert_eq!(value(f.air_temperature), 18.5);
    assert_eq!(value(f.cloud_area_fraction), 12.5);
    assert_eq!(value(f.relative_humidity), 70.1);
    assert_eq!(value(f.wind_from_direction), 180.0);
    assert_eq!(value(f.wind_speed), 3.4);
    assert_eq!(f.forecast_by_time.get(Hours::Hour1), Some(WeatherCode::Rain));
    assert_eq!(f.forecast_by_time.get(Hours::Hour6), Some(WeatherCode::Cloudy));
    assert_eq!(f.forecast_by_time.get(Hours::Hour12), Some(WeatherCode::ClearSky));
    assert!(w.get_forecast_for_hour(&ts("2023-07-15T09:00:00Z")).is_none());
}

#[test]
fn lookup_goes_by_instant_not_offset() {
    let text = payload(&[entry("2023-07-15T08:00:00Z", "1013.0", "18.5")]);
    let w = Weather::new(moscow(), &text).unwrap();
    assert!(w.get_forecast_for_hour(&ts("2023-07-15T11:00:00+03:00")).is_some());
}

#[test]
fn every_entry_is_read() {
    let mut entries = Vec::new();
    for h in 0..30 {
        let day = 15 + h / 24;
        let hour = h % 24;
        entries.push(entry(&format!("2023-07-{:02}T{:02}:00:00Z", day, hour), "1000", "10"));
    }
    let series = parse_api_response(&payload(&entries)).unwrap();
    assert_eq!(series.len(), 30);
    assert!(series.get(&ts("2023-07-16T05:00:00Z")).is_some());
    assert!(series.get(&ts("2023-07-16T06:00:00Z")).is_none());
}

#[test]
fn two_days_of_entries_are_read() {
    let mut entries = Vec::new();
    for h in 0..48 {
        entries.push(entry(&format!("2023-07-{:02}T{:02}:00:00Z", 15 + h / 24, h % 24), "1000", "10"));
    }
    let series = parse_api_response(&payload(&entries)).unwrap();
    assert_eq!(series.len(), 48);
    for h in 0..48 {
        let key = ts(&format!("2023-07-{:02}T{:02}:00:00Z", 15 + h / 24, h % 24));
        assert!(series.get(&key).is_some());
    }
}

#[test]
fn numbers_with_exponents_are_read() {
    let text = payload(&[entry("2023-07-15T08:00:00Z", "1013.0", "2.9802322387695312e-8")]);
    let series = parse_api_response(&text).unwrap();
    let f = series.get(&ts("2023-07-15T08:00:00Z")).unwrap();
    assert!((value(f.air_temperature) - 2.9802322387695312e-8).abs() < 1e-20);
}

#[test]
fn wide_numbers_are_read() {
    let text = payload(&[entry("2023-07-15T08:00:00Z", "12345678901234567890", "1e300")]);
    let series = parse_api_response(&text).unwrap();
    let f = series.get(&ts("2023-07-15T08:00:00Z")).unwrap();
    assert_eq!(f.air_pressure_at_sea_level, Decimal { mantissa: 12345678901234567890, scale: 0 });
    assert_eq!(f.air_temperature, Decimal { mantissa: 1, scale: -300 });
}

#[test]
fn empty_series_is_read() {
    let series = parse_api_response(&payload(&[])).unwrap();
    assert_eq!(series.len(), 0);
}

#[test]
fn repeated_instant_keeps_the_later_entry() {
    let text = payload(&[
        entry("2023-07-15T08:00:00Z", "1000.0", "10.0"),
        entry("2023-07-15T09:00:00Z", "1001.0", "11.0"),
        entry("2023-07-15T11:00:00+03:00", "1002.0", "12.0"),
    ]);
    let series = parse_api_response(&text).unwrap();
    assert_eq!(series.len(), 2);
    let f = series.get(&ts("2023-07-15T08:00:00Z")).unwrap();
    assert_eq!(value(f.air_temperature), 12.0);
}

#[test]
fn missing_temperature_fails_the_payload() {
    let broken = "{\"time\":\"2023-07-15T09:00:00Z\",\"data\":{\"instant\":{\"details\":{\"air_pressure_at_sea_level\":1000.0,\"cloud_area_fraction\":1.0,\"relative_humidity\":1.0,\"wind_from_direction\":1.0,\"wind_speed\":1.0}}}}".to_string();
    let text = payload(&[entry("2023-07-15T08:00:00Z", "1013.0", "18.5"), broken]);
    assert_eq!(parse_api_response(&text).err(), Some(RequestError::MalformedPayload));
    assert_eq!(Weather::new(moscow(), &text).err(), Some(RequestError::MalformedPayload));
}

#[test]
fn bad_time_or_number_fails_the_payload() {
    let text = payload(&[entry("15 July", "1013.0", "18.5")]);
    assert_eq!(parse_api_response(&text).err(), Some(RequestError::MalformedPayload));
    let text = payload(&[entry("2023-07-15T08:00:00Z", "\"high\"", "18.5")]);
    assert_eq!(parse_api_response(&text).err(), Some(RequestError::MalformedPayload));
    assert_eq!(parse_api_response("{\"properties\":{}}").err(), Some(RequestError::MalformedPayload));
    assert_eq!(parse_api_response("<html>").err(), Some(RequestError::MalformedPayload));
}

#[test]
fn absent_summaries_are_left_out() {
    let e = "{\"time\":\"2023-07-15T08:00:00Z\",\"data\":{\"instant\":{\"details\":{\"air_pressure_at_sea_level\":1000.0,\"air_temperature\":5.0,\"cloud_area_fraction\":1.0,\"relative_humidity\":1.0,\"wind_from_direction\":1.0,\"wind_speed\":1.0}},\"next_1_hours\":{\"summary\":{\"symbol_code\":\"fog\"}}}}";
    let doc = read_json(e).unwrap();
    let (t, f) = parse_entry(&doc).unwrap();
    assert_eq!(t, ts("2023-07-15T08:00:00Z"));
    assert_eq!(f.forecast_by_time.hour1, Some(WeatherCode::Fog));
    assert_eq!(f.forecast_by_time.hour6, None);
    assert_eq!(f.forecast_by_time.hour12, None);
}

#[test]
fn forecast_status_decides_first() {
    let text = payload(&[entry("2023-07-15T08:00:00Z", "1013.0", "18.5")]);
    assert_eq!(Weather::from_response(moscow(), 503, &text).err(), Some(RequestError::Upstream(503)));
    assert_eq!(Weather::from_response(moscow(), 403, &text).err(), Some(RequestError::Upstream(403)));
    assert!(Weather::from_response(moscow(), 200, &text).is_ok());
}

#[test]
fn series_insert_replaces() {
    let text = payload(&[entry("2023-07-15T08:00:00Z", "1013.0", "18.5")]);
    let doc = read_json(&text).unwrap();
    let parsed = parse_forecasts(&doc).unwrap();
    let f = *parsed.get(&ts("2023-07-15T08:00:00Z")).unwrap();
    let mut series = ForecastSeries::new();
    series.insert(ts("2023-07-15T08:00:00Z"), f);
    series.insert(ts("2023-07-15T10:00:00+02:00"), f);
    assert_eq!(series.len(), 1);
    assert_eq!(series.get(&ts("2023-07-15T08:00:00Z")).map(|_| ()), Some(()));
}

#[test]
fn moscow_end_to_end() {
    let coordinate = resolve_geo_response(200, &geo_answer("37.61 55.75")).unwrap();
    assert_eq!(coordinate.latitude, Decimal { mantissa: 5575, scale: 2 });
    assert_eq!(coordinate.longitude, Decimal { mantissa: 3761, scale: 2 });
    let text = payload(&[
        entry("2023-07-15T08:00:00Z", "1013.0", "18.5"),
        entry("2023-07-15T09:00:00Z", "1012.0", "19.5"),
        entry("2023-07-15T10:00:00Z", "1011.0", "20.5"),
    ]);
    let w = Weather::from_response(coordinate, 200, &text).unwrap();
    assert_eq!(w.coordinates, coordinate);
    assert_eq!(w.forecasts.len(), 3);
    let bucket = round_to_near_hour(&ts("2023-07-15T11:20:00+03:00"));
    let f = w.get_forecast_for_hour(&bucket).unwrap();
    assert_eq!(value(f.air_temperature), 19.5);
    let late = round_to_near_hour(&ts("2023-07-15T13:20:00+03:00"));
    assert!(w.get_forecast_for_hour(&late).is_none());
}

#[test]
fn decimals_are_written_with_their_scale() {
    assert_eq!(Decimal { mantissa: -325, scale: 2 }.to_text(), "-3.25");
    assert_eq!(Decimal { mantissa: 1850, scale: 2 }.to_text(), "18.50");
    assert_eq!(Decimal { mantissa: 7, scale: 0 }.to_text(), "7");
    assert_eq!(Decimal { mantissa: 5, scale: 3 }.to_text(), "0.005");
    assert_eq!(Decimal { mantissa: -5, scale: 1 }.to_text(), "-0.5");
    assert_eq!(Decimal { mantissa: i64::MIN as i128, scale: 0 }.to_text(), "-9223372036854775808");
    assert_eq!(
        Decimal { mantissa: i128::MIN, scale: 0 }.to_text(),
        "-170141183460469231731687303715884105728"
    );
    assert_eq!(Decimal { mantissa: 12, scale: -2 }.to_text(), "1200");
    assert_eq!(Decimal { mantissa: 0, scale: -3 }.to_text(), "0");
    assert_eq!(Decimal { mantissa: 5, scale: 25 }.to_text(), "0.0000000000000000000000005");
    assert_eq!(Decimal { mantissa: -12, scale: 20 }.to_text(), "-0.00000000000000000012");
}

#[test]
fn forecast_url_holds_the_coordinate() {
    assert_eq!(
        forecast_request_url(&moscow()),
        "https://api.met.no/weatherapi/locationforecast/2.0/compact?lat=55.75&lon=37.61"
    );
}
