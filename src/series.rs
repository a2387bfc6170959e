//! A collection of forecasts keyed by the instant they are for.
use vstd::prelude::*;

use crate::decimal::Decimal;
use crate::time::Timestamp;
use crate::weather_codes::WeatherCode;
use std::collections::HashMap;

verus! {

broadcast use vstd::std_specs::hash::group_hash_axioms;

/// The horizons that short-range summaries cover.
#[derive(Debug, Clone, Copy, PartialEq, Eq, Structural)]
pub enum Hours {
    Hour1,
    Hour6,
    Hour12,
}

/// The condition summarised for each horizon; a horizon that the provider
/// left out has none.
#[derive(Debug, Clone, Copy)]
pub struct NextHoursForecast {
    pub hour1: Option<WeatherCode>,
    pub hour6: Option<WeatherCode>,
    pub hour12: Option<WeatherCode>,
}

impl NextHoursForecast {
    pub open spec fn at(self, hours: Hours) -> Option<WeatherCode> {
        match hours {
            Hours::Hour1 => self.hour1,
            Hours::Hour6 => self.hour6,
            Hours::Hour12 => self.hour12,
        }
    }

    /// The condition summarised for a horizon.
    pub fn get(&self, hours: Hours) -> (r: Option<WeatherCode>)
        ensures
            r == self.at(hours),
    {
        match hours {
            Hours::Hour1 => self.hour1,
            Hours::Hour6 => self.hour6,
            Hours::Hour12 => self.hour12,
        }
    }
}

/// The forecast for one instant.
#[derive(Debug, Clone, Copy)]
pub struct Forecast {
    pub air_pressure_at_sea_level: Decimal,
    pub air_temperature: Decimal,
    pub cloud_area_fraction: Decimal,
    pub relative_humidity: Decimal,
    pub wind_from_direction: Decimal,
    pub wind_speed: Decimal,
    pub forecast_by_time: NextHoursForecast,
}

/// Forecasts keyed by instant, in nanoseconds since the epoch, at most one for
/// each instant.
pub struct ForecastSeries {
    entries: HashMap<i128, (Timestamp, Forecast)>,
}

impl View for ForecastSeries {
    type V = Map<i128, (Timestamp, Forecast)>;

    /// Each instant with the timestamp as the provider wrote it and the
    /// forecast for it.
    closed spec fn view(&self) -> Map<i128, (Timestamp, Forecast)> {
        self.entries@
    }
}

impl ForecastSeries {
    /// An empty series.
    pub fn new() -> (r: ForecastSeries)
        ensures
            r@ == Map::<i128, (Timestamp, Forecast)>::empty(),
    {
        ForecastSeries { entries: HashMap::new() }
    }

    /// How many instants have a forecast.
    pub fn len(&self) -> (r: usize)
        ensures
            r == self@.len(),
            self@.dom().finite(),
    {
        self.entries.len()
    }

    /// Puts the forecast for an instant in the series, in place of any that
    /// was there for the same instant.
    pub fn insert(&mut self, time: Timestamp, forecast: Forecast)
        ensures
            final(self)@ == old(self)@.insert(time.key(), (time, forecast)),
    {
        self.entries.insert(time.instant_key(), (time, forecast));
    }

    /// The forecast for the instant of `time`, if the series has one.
    pub fn get(&self, time: &Timestamp) -> (r: Option<&Forecast>)
        ensures
            match r {
                Some(f) => self@.contains_key(time.key()) && self@[time.key()].1 == *f,
                None => !self@.contains_key(time.key()),
            },
    {
        let key = time.instant_key();
        match self.entries.get(&key) {
            Some(e) => Some(&e.1),
            None => None,
        }
    }
}

} // verus!
