//! Reading the weather provider's payload into a forecast series, and the
//! snapshot of one fetch for one coordinate.
use vstd::prelude::*;

use crate::decimal::{decimal_text, Decimal};
use crate::error::RequestError;
use crate::geo::GeoCoordinate;
use crate::json::{
    found, get_member, get_member_of, get_number, get_text, json_of, member,
    member_of, number_of, read_json, text_of, JsonValue,
};
use crate::series::{Forecast, ForecastSeries, NextHoursForecast};
use crate::time::{timestamp_of, Timestamp};
use crate::weather_codes::{classify, get_weather_code, WeatherCode};

verus! {

/// The instant measurements of an entry, at `data.instant.details`.
pub open spec fn details_of(e: JsonValue) -> Option<JsonValue> {
    member_of(member_of(member(e, "data"@), "instant"@), "details"@)
}

/// A numeric measurement among the details.
pub open spec fn measure_of(details: Option<JsonValue>, name: Seq<char>) -> Option<Decimal> {
    match member_of(details, name) {
        Some(v) => number_of(v),
        None => None,
    }
}

/// The condition summarised under `data.<horizon>.summary.symbol_code`;
/// none where the summary or its code is absent.
pub open spec fn summary_of(e: JsonValue, horizon: Seq<char>) -> Option<WeatherCode> {
    match member_of(member_of(member_of(member(e, "data"@), horizon), "summary"@), "symbol_code"@) {
        Some(v) => match text_of(v) {
            Some(code) => Some(classify(code)),
            None => None,
        },
        None => None,
    }
}

/// The forecast of an entry, where all six measurements are numbers.
pub open spec fn forecast_of(e: JsonValue) -> Option<Forecast> {
    let d = details_of(e);
    match (
        measure_of(d, "air_pressure_at_sea_level"@),
        measure_of(d, "air_temperature"@),
        measure_of(d, "cloud_area_fraction"@),
        measure_of(d, "relative_humidity"@),
        measure_of(d, "wind_from_direction"@),
        measure_of(d, "wind_speed"@),
    ) {
        (Some(p), Some(t), Some(c), Some(h), Some(wd), Some(ws)) => Some(Forecast {
            air_pressure_at_sea_level: p,
            air_temperature: t,
            cloud_area_fraction: c,
            relative_humidity: h,
            wind_from_direction: wd,
            wind_speed: ws,
            forecast_by_time: NextHoursForecast {
                hour1: summary_of(e, "next_1_hours"@),
                hour6: summary_of(e, "next_6_hours"@),
                hour12: summary_of(e, "next_12_hours"@),
            },
        }),
        _ => None,
    }
}

/// The timestamp of an entry, at `time`.
pub open spec fn time_of(e: JsonValue) -> Option<Timestamp> {
    match member(e, "time"@) {
        Some(v) => match text_of(v) {
            Some(t) => timestamp_of(t),
            None => None,
        },
        None => None,
    }
}

/// An entry of the time series read as a timestamp and its forecast.
#[verifier::opaque]
pub open spec fn entry_of(e: JsonValue) -> Option<(Timestamp, Forecast)> {
    match (time_of(e), forecast_of(e)) {
        (Some(t), Some(f)) => Some((t, f)),
        _ => None,
    }
}

/// The instant of an entry that can be read.
pub open spec fn entry_instant(e: JsonValue) -> i128 {
    match entry_of(e) {
        Some((t, _)) => t.key(),
        None => 0,
    }
}

/// The entries read in order, a later one for an instant replacing an
/// earlier one; nothing if any entry cannot be read.
pub open spec fn series_of(es: Seq<JsonValue>) -> Option<Map<i128, (Timestamp, Forecast)>>
    decreases es.len(),
{
    if es.len() == 0 {
        Some(Map::empty())
    } else {
        match (series_of(es.drop_last()), entry_of(es.last())) {
            (Some(m), Some((t, f))) => Some(m.insert(t.key(), (t, f))),
            _ => None,
        }
    }
}

/// The forecasts of a payload text: those of the document serde_json reads
/// from it, or a malformed payload.
pub open spec fn payload_result(text: Seq<char>) -> Result<Map<i128, (Timestamp, Forecast)>, RequestError> {
    match json_of(text) {
        Some(doc) => match forecasts_of(doc) {
            Some(m) => Ok(m),
            None => Err(RequestError::MalformedPayload),
        },
        None => Err(RequestError::MalformedPayload),
    }
}

/// The time series of a payload, at `properties.timeseries`.
pub open spec fn timeseries_of(doc: JsonValue) -> Option<Seq<JsonValue>> {
    match member_of(member(doc, "properties"@), "timeseries"@) {
        Some(JsonValue::Array(a)) => Some(a@),
        _ => None,
    }
}

/// The forecasts of a payload: every entry of its time series.
pub open spec fn forecasts_of(doc: JsonValue) -> Option<Map<i128, (Timestamp, Forecast)>> {
    match timeseries_of(doc) {
        Some(es) => series_of(es),
        None => None,
    }
}

fn read_measure(details: Option<&JsonValue>, name: &str) -> (r: Option<Decimal>)
    ensures
        r == measure_of(found(details), name@),
{
    match get_member_of(details, name) {
        Some(v) => get_number(v),
        None => None,
    }
}

fn read_summary(e: &JsonValue, horizon: &str) -> (r: Option<WeatherCode>)
    ensures
        r == summary_of(*e, horizon@),
{
    let code = get_member_of(get_member_of(get_member_of(get_member(e, "data"), horizon), "summary"), "symbol_code");
    match code {
        Some(v) => match get_text(v) {
            Some(t) => Some(get_weather_code(t)),
            None => None,
        },
        None => None,
    }
}

/// Reads one entry of the time series.
pub fn parse_entry(e: &JsonValue) -> (r: Option<(Timestamp, Forecast)>)
    ensures
        r == entry_of(*e),
{
    reveal(entry_of);
    let time = match get_member(e, "time") {
        Some(v) => match get_text(v) {
            Some(t) => Timestamp::parse_rfc3339(t),
            None => None,
        },
        None => None,
    };
    let time = match time {
        Some(t) => t,
        None => return None,
    };
    let d = get_member_of(get_member_of(get_member(e, "data"), "instant"), "details");
    let p = read_measure(d, "air_pressure_at_sea_level");
    let t = read_measure(d, "air_temperature");
    let c = read_measure(d, "cloud_area_fraction");
    let h = read_measure(d, "relative_humidity");
    let wd = read_measure(d, "wind_from_direction");
    let ws = read_measure(d, "wind_speed");
    match (p, t, c, h, wd, ws) {
        (Some(p), Some(t), Some(c), Some(h), Some(wd), Some(ws)) => {
            let forecast_by_time = NextHoursForecast {
                hour1: read_summary(e, "next_1_hours"),
                hour6: read_summary(e, "next_6_hours"),
                hour12: read_summary(e, "next_12_hours"),
            };
            Some((time, Forecast {
                air_pressure_at_sea_level: p,
                air_temperature: t,
                cloud_area_fraction: c,
                relative_humidity: h,
                wind_from_direction: wd,
                wind_speed: ws,
                forecast_by_time,
            }))
        },
        _ => None,
    }
}

proof fn lemma_series_fails_on(es: Seq<JsonValue>, j: int)
    requires
        0 <= j <= es.len(),
        series_of(es.take(j)) is None,
    ensures
        series_of(es) is None,
    decreases es.len() - j,
{
    if j < es.len() {
        assert(es.take(j + 1).drop_last() =~= es.take(j));
        lemma_series_fails_on(es, j + 1);
    } else {
        assert(es.take(j) =~= es);
    }
}

/// Reads every entry of a payload's time series into a series; one entry
/// that cannot be read fails the whole payload.
pub fn parse_forecasts(doc: &JsonValue) -> (r: Result<ForecastSeries, RequestError>)
    ensures
        match forecasts_of(*doc) {
            Some(m) => r matches Ok(s) && s@ == m,
            None => r == Err::<ForecastSeries, RequestError>(RequestError::MalformedPayload),
        },
{
    let ts = get_member_of(get_member(doc, "properties"), "timeseries");
    let a = match ts {
        Some(JsonValue::Array(a)) => a,
        _ => return Err(RequestError::MalformedPayload),
    };
    let mut series = ForecastSeries::new();
    let mut j: usize = 0;
    assert(a@.take(0) =~= Seq::<JsonValue>::empty());
    while j < a.len()
        invariant
            j <= a@.len(),
            timeseries_of(*doc) == Some(a@),
            series_of(a@.take(j as int)) == Some(series@),
        decreases a.len() - j,
    {
        assert(a@.take(j + 1).drop_last() =~= a@.take(j as int));
        assert(a@.take(j + 1).last() == a@[j as int]);
        match parse_entry(&a[j]) {
            Some((t, f)) => series.insert(t, f),
            None => {
                proof {
                    lemma_series_fails_on(a@, j + 1);
                }
                return Err(RequestError::MalformedPayload);
            },
        }
        j = j + 1;
    }
    assert(a@.take(j as int) =~= a@);
    Ok(series)
}

/// Reads a weather provider's payload text into a series. Text that is not
/// JSON is a malformed payload.
pub fn parse_api_response(text_response: &str) -> (r: Result<ForecastSeries, RequestError>)
    ensures
        match payload_result(text_response@) {
            Ok(m) => r matches Ok(s) && s@ == m,
            Err(e) => r == Err::<ForecastSeries, RequestError>(e),
        },
{
    match read_json(text_response) {
        Some(doc) => parse_forecasts(&doc),
        None => Err(RequestError::MalformedPayload),
    }
}

proof fn lemma_series_keys(es: Seq<JsonValue>)
    requires
        series_of(es) is Some,
    ensures
        forall|i: int| 0 <= i < es.len() ==> (#[trigger] entry_of(es[i])) is Some,
        forall|k: i128|
            (#[trigger] series_of(es)->0.contains_key(k)) <==> exists|i: int|
                0 <= i < es.len() && #[trigger] entry_instant(es[i]) == k,
    decreases es.len(),
{
    if es.len() > 0 {
        let t = es.drop_last();
        lemma_series_keys(t);
        assert forall|i: int| 0 <= i < t.len() implies t[i] == es[i] by {}
        let last = es.len() - 1;
        assert(es.last() == es[last]);
        assert(entry_of(es[last]) is Some);
        assert(series_of(es)->0 == series_of(t)->0.insert(entry_instant(es[last]), entry_of(es[last])->0));
        assert forall|k: i128|
            (#[trigger] series_of(es)->0.contains_key(k)) <==> exists|i: int|
                0 <= i < es.len() && #[trigger] entry_instant(es[i]) == k by {
            if series_of(t)->0.contains_key(k) {
                let i = choose|i: int| 0 <= i < t.len() && #[trigger] entry_instant(t[i]) == k;
                assert(entry_instant(es[i]) == k);
            }
            if exists|i: int| 0 <= i < es.len() && #[trigger] entry_instant(es[i]) == k {
                let i = choose|i: int| 0 <= i < es.len() && #[trigger] entry_instant(es[i]) == k;
                if i < t.len() {
                    assert(entry_instant(t[i]) == k);
                }
            }
        }
    }
}

/// Every entry of a payload's time series is read: the series holds a
/// forecast for exactly the instants that the entries give, however many
/// entries there are.
pub proof fn lemma_every_entry_read(doc: JsonValue)
    requires
        forecasts_of(doc) is Some,
    ensures
        forall|i: int|
            0 <= i < timeseries_of(doc)->0.len() ==> (#[trigger] entry_of(timeseries_of(doc)->0[i])) is Some,
        forall|k: i128|
            (#[trigger] forecasts_of(doc)->0.contains_key(k)) <==> exists|i: int|
                0 <= i < timeseries_of(doc)->0.len()
                    && (#[trigger] time_of(timeseries_of(doc)->0[i]))->0.key() == k,
{
    reveal(entry_of);
    let es = timeseries_of(doc)->0;
    lemma_series_keys(es);
    assert forall|k: i128|
        (#[trigger] forecasts_of(doc)->0.contains_key(k)) <==> exists|i: int|
            0 <= i < es.len() && (#[trigger] time_of(es[i]))->0.key() == k by {
        if forecasts_of(doc)->0.contains_key(k) {
            let i = choose|i: int| 0 <= i < es.len() && #[trigger] entry_instant(es[i]) == k;
            assert(time_of(es[i])->0.key() == k);
        }
        if exists|i: int| 0 <= i < es.len() && (#[trigger] time_of(es[i]))->0.key() == k {
            let i = choose|i: int| 0 <= i < es.len() && (#[trigger] time_of(es[i]))->0.key() == k;
            assert(entry_of(es[i]) is Some);
            assert(entry_instant(es[i]) == k);
        }
    }
}

/// A payload with an entry that lacks its air temperature is read as
/// nothing at all, not as the other entries.
pub proof fn lemma_missing_temperature_fails(doc: JsonValue, i: int)
    requires
        timeseries_of(doc) is Some,
        0 <= i < timeseries_of(doc)->0.len(),
        member_of(details_of(timeseries_of(doc)->0[i]), "air_temperature"@) is None,
    ensures
        forecasts_of(doc) is None,
{
    reveal(entry_of);
    let es = timeseries_of(doc)->0;
    assert(entry_of(es[i]) is None);
    assert(es.take(i + 1).drop_last() =~= es.take(i));
    assert(es.take(i + 1).last() == es[i]);
    lemma_series_fails_on(es, i + 1);
}

proof fn lemma_series_at(es: Seq<JsonValue>, i: int)
    requires
        series_of(es) is Some,
        0 <= i < es.len(),
        forall|j: int| i < j < es.len() ==> #[trigger] entry_instant(es[j]) != entry_instant(es[i]),
    ensures
        series_of(es)->0.contains_key(entry_instant(es[i])),
        series_of(es)->0[entry_instant(es[i])] == entry_of(es[i])->0,
    decreases es.len(),
{
    let t = es.drop_last();
    if i < es.len() - 1 {
        assert(t[i] == es[i]);
        assert forall|j: int| i < j < t.len() implies #[trigger] entry_instant(t[j]) != entry_instant(t[i]) by {
            assert(t[j] == es[j]);
        }
        lemma_series_at(t, i);
        assert(entry_instant(es[es.len() - 1]) != entry_instant(es[i]));
    }
}

/// Looking up the instant of an entry finds the forecast read from that
/// entry, where no later entry is for the same instant.
pub proof fn lemma_lookup_round_trip(doc: JsonValue, i: int)
    requires
        forecasts_of(doc) is Some,
        0 <= i < timeseries_of(doc)->0.len(),
        forall|j: int|
            i < j < timeseries_of(doc)->0.len() ==> (#[trigger] time_of(timeseries_of(doc)->0[j]))->0.key()
                != time_of(timeseries_of(doc)->0[i])->0.key(),
    ensures
        forecasts_of(doc)->0.contains_key(time_of(timeseries_of(doc)->0[i])->0.key()),
        forecasts_of(doc)->0[time_of(timeseries_of(doc)->0[i])->0.key()]
            == (time_of(timeseries_of(doc)->0[i])->0, forecast_of(timeseries_of(doc)->0[i])->0),
{
    reveal(entry_of);
    let es = timeseries_of(doc)->0;
    lemma_series_keys(es);
    assert(entry_of(es[i]) is Some);
    assert forall|j: int| i < j < es.len() implies #[trigger] entry_instant(es[j]) != entry_instant(es[i]) by {
        assert(entry_of(es[j]) is Some);
        assert(time_of(es[j])->0.key() != time_of(es[i])->0.key());
    }
    lemma_series_at(es, i);
}

/// One fetch of the forecast for one coordinate.
pub struct Weather {
    pub forecasts: ForecastSeries,
    pub coordinates: GeoCoordinate,
}

/// The outcome of the weather provider's HTTP status: success for
/// `200..=299`, else the status as an upstream error.
pub open spec fn fetch_status_result(status: u16) -> Result<(), RequestError> {
    if 200 <= status <= 299 {
        Ok(())
    } else {
        Err(RequestError::Upstream(status))
    }
}

/// The weather provider's query for a coordinate.
pub fn forecast_request_url(geo_point: &GeoCoordinate) -> (r: String)
    ensures
        r@ == "https://api.met.no/weatherapi/locationforecast/2.0/compact?lat="@
            + decimal_text(geo_point.latitude) + "&lon="@ + decimal_text(geo_point.longitude),
{
    let mut url = String::from_str("https://api.met.no/weatherapi/locationforecast/2.0/compact?lat=");
    let lat = geo_point.latitude.to_text();
    url.append(lat.as_str());
    url.append("&lon=");
    let lon = geo_point.longitude.to_text();
    url.append(lon.as_str());
    url
}

impl Weather {
    /// The snapshot of a parsed payload for a coordinate.
    pub fn from_document(geo_point: GeoCoordinate, doc: &JsonValue) -> (r: Result<Weather, RequestError>)
        ensures
            match forecasts_of(*doc) {
                Some(m) => r matches Ok(w) && w.forecasts@ == m && w.coordinates == geo_point,
                None => r == Err::<Weather, RequestError>(RequestError::MalformedPayload),
            },
    {
        match parse_forecasts(doc) {
            Ok(forecasts) => Ok(Weather { forecasts, coordinates: geo_point }),
            Err(e) => Err(e),
        }
    }

    /// The snapshot of a payload text for a coordinate.
    pub fn new(geo_point: GeoCoordinate, response: &str) -> (r: Result<Weather, RequestError>)
        ensures
            match payload_result(response@) {
                Ok(m) => r matches Ok(w) && w.forecasts@ == m && w.coordinates == geo_point,
                Err(e) => r == Err::<Weather, RequestError>(e),
            },
    {
        match parse_api_response(response) {
            Ok(forecasts) => Ok(Weather { forecasts, coordinates: geo_point }),
            Err(e) => Err(e),
        }
    }

    /// The snapshot of the weather provider's answer, its HTTP status and
    /// body, for a coordinate: the status decides first.
    pub fn from_response(geo_point: GeoCoordinate, status: u16, body: &str) -> (r: Result<Weather, RequestError>)
        ensures
            match fetch_status_result(status) {
                Err(e) => r == Err::<Weather, RequestError>(e),
                Ok(()) => match payload_result(body@) {
                    Ok(m) => r matches Ok(w) && w.forecasts@ == m && w.coordinates == geo_point,
                    Err(e) => r == Err::<Weather, RequestError>(e),
                },
            },
    {
        if 200 <= status && status <= 299 {
            Weather::new(geo_point, body)
        } else {
            Err(RequestError::Upstream(status))
        }
    }

    /// The forecast for the instant of `time`; `None` where the snapshot has
    /// none, never a nearby one.
    pub fn get_forecast_for_hour(&self, time: &Timestamp) -> (r: Option<&Forecast>)
        ensures
            match r {
                Some(f) => self.forecasts@.contains_key(time.key())
                    && self.forecasts@[time.key()].1 == *f,
                None => !self.forecasts@.contains_key(time.key()),
            },
    {
        self.forecasts.get(time)
    }
}

} // verus!
