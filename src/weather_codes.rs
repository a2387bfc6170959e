//! The provider's symbol codes and the closed set of conditions they name.
use vstd::prelude::*;

use crate::text::same_text;

verus! {

/// A weather condition as the provider's symbol codes name it.
#[derive(Debug, Clone, Copy, PartialEq, Eq, Structural)]
pub enum WeatherCode {
    ClearSky,
    Cloudy,
    Fair,
    Fog,
    HeavyRain,
    HeavyRainAndThunder,
    HeavyRainShowers,
    HeavyRainShowersAndThunder,
    HeavySleet,
    HeavySleetAndThunder,
    HeavySleetShowers,
    HeavySleetShowersAndThunder,
    HeavySnow,
    HeavySnowAndThunder,
    HeavySnowShowers,
    HeavySnowShowersAndThunder,
    LightRain,
    LightRainAndThunder,
    LightRainShowers,
    LightRainShowersAndThunder,
    LightSleet,
    LightSleetAndThunder,
    LightSleetShowers,
    LightSnow,
    LightSnowAndThunder,
    LightSnowShowers,
    LightsSleetShowersAndThunder,
    LightsSnowShowersAndThunder,
    PartlyCloudy,
    Rain,
    RainAndThunder,
    RainShowers,
    RainShowersAndThunder,
    Sleet,
}

/// The condition that a code stands for in the catalog, if it is listed.
/// Codes are matched exactly: case matters and no suffix is stripped.
pub open spec fn catalog_entry(code: Seq<char>) -> Option<WeatherCode> {
    if code == "clearsky"@ {
        Some(WeatherCode::ClearSky)
    } else if code == "cloudy"@ {
        Some(WeatherCode::Cloudy)
    } else if code == "fair"@ {
        Some(WeatherCode::Fair)
    } else if code == "fog"@ {
        Some(WeatherCode::Fog)
    } else if code == "heavyrain"@ {
        Some(WeatherCode::HeavyRain)
    } else if code == "heavyrainandthunder"@ {
        Some(WeatherCode::HeavyRainAndThunder)
    } else if code == "heavyrainshowers"@ {
        Some(WeatherCode::HeavyRainShowers)
    } else if code == "heavyrainshowersandthunder"@ {
        Some(WeatherCode::HeavyRainShowersAndThunder)
    } else if code == "heavysleet"@ {
        Some(WeatherCode::HeavySleet)
    } else if code == "heavysleetandthunder"@ {
        Some(WeatherCode::HeavySleetAndThunder)
    } else if code == "heavysleetshowers"@ {
        Some(WeatherCode::HeavySleetShowers)
    } else if code == "heavysleetshowersandthunder"@ {
        Some(WeatherCode::HeavySleetShowersAndThunder)
    } else if code == "heavysnow"@ {
        Some(WeatherCode::HeavySnow)
    } else if code == "heavysnowandthunder"@ {
        Some(WeatherCode::HeavySnowAndThunder)
    } else if code == "heavysnowshowers"@ {
        Some(WeatherCode::HeavySnowShowers)
    } else if code == "heavysnowshowersandthunder"@ {
        Some(WeatherCode::HeavySnowShowersAndThunder)
    } else if code == "lightrain"@ {
        Some(WeatherCode::LightRain)
    } else if code == "lightrainshowers"@ {
        Some(WeatherCode::LightRainShowers)
    } else if code == "lightrainshowersandthunder"@ {
        Some(WeatherCode::LightRainShowersAndThunder)
    } else if code == "lightsleet"@ {
        Some(WeatherCode::LightSleet)
    } else if code == "lightsleetandthunder"@ {
        Some(WeatherCode::LightSleetAndThunder)
    } else if code == "lightsleetshowers"@ {
        Some(WeatherCode::LightSleetShowers)
    } else if code == "lightsnowandthunder"@ {
        Some(WeatherCode::LightSnowAndThunder)
    } else if code == "lightsnowshowers"@ {
        Some(WeatherCode::LightSnowShowers)
    } else if code == "lightssleetshowersandthunder"@ {
        Some(WeatherCode::LightsSleetShowersAndThunder)
    } else if code == "lightssnowshowersandthunder"@ {
        Some(WeatherCode::LightsSnowShowersAndThunder)
    } else if code == "partlycloudy"@ {
        Some(WeatherCode::PartlyCloudy)
    } else if code == "rain"@ {
        Some(WeatherCode::Rain)
    } else if code == "rainandthunder"@ {
        Some(WeatherCode::RainAndThunder)
    } else if code == "rainshowers"@ {
        Some(WeatherCode::RainShowers)
    } else if code == "rainshowersandthunder"@ {
        Some(WeatherCode::RainShowersAndThunder)
    } else if code == "sleet"@ {
        Some(WeatherCode::Sleet)
    } else {
        None
    }
}

/// The condition for a code: its catalog entry, or `ClearSky` for a code
/// that the catalog does not list.
pub open spec fn classify(code: Seq<char>) -> WeatherCode {
    match catalog_entry(code) {
        Some(w) => w,
        None => WeatherCode::ClearSky,
    }
}

/// Looks a provider symbol code up in the catalog; an unknown code gives
/// `ClearSky`, never an error.
pub fn get_weather_code(string_code: &str) -> (r: WeatherCode)
    ensures
        r == classify(string_code@),
{
    if same_text(string_code, "clearsky") {
        WeatherCode::ClearSky
    } else if same_text(string_code, "cloudy") {
        WeatherCode::Cloudy
    } else if same_text(string_code, "fair") {
        WeatherCode::Fair
    } else if same_text(string_code, "fog") {
        WeatherCode::Fog
    } else if same_text(string_code, "heavyrain") {
        WeatherCode::HeavyRain
    } else if same_text(string_code, "heavyrainandthunder") {
        WeatherCode::HeavyRainAndThunder
    } else if same_text(string_code, "heavyrainshowers") {
        WeatherCode::HeavyRainShowers
    } else if same_text(string_code, "heavyrainshowersandthunder") {
        WeatherCode::HeavyRainShowersAndThunder
    } else if same_text(string_code, "heavysleet") {
        WeatherCode::HeavySleet
    } else if same_text(string_code, "heavysleetandthunder") {
        WeatherCode::HeavySleetAndThunder
    } else if same_text(string_code, "heavysleetshowers") {
        WeatherCode::HeavySleetShowers
    } else if same_text(string_code, "heavysleetshowersandthunder") {
        WeatherCode::HeavySleetShowersAndThunder
    } else if same_text(string_code, "heavysnow") {
        WeatherCode::HeavySnow
    } else if same_text(string_code, "heavysnowandthunder") {
        WeatherCode::HeavySnowAndThunder
    } else if same_text(string_code, "heavysnowshowers") {
        WeatherCode::HeavySnowShowers
    } else if same_text(string_code, "heavysnowshowersandthunder") {
        WeatherCode::HeavySnowShowersAndThunder
    } else if same_text(string_code, "lightrain") {
        WeatherCode::LightRain
    } else if same_text(string_code, "lightrainshowers") {
        WeatherCode::LightRainShowers
    } else if same_text(string_code, "lightrainshowersandthunder") {
        WeatherCode::LightRainShowersAndThunder
    } else if same_text(string_code, "lightsleet") {
        WeatherCode::LightSleet
    } else if same_text(string_code, "lightsleetandthunder") {
        WeatherCode::LightSleetAndThunder
    } else if same_text(string_code, "lightsleetshowers") {
        WeatherCode::LightSleetShowers
    } else if same_text(string_code, "lightsnowandthunder") {
        WeatherCode::LightSnowAndThunder
    } else if same_text(string_code, "lightsnowshowers") {
        WeatherCode::LightSnowShowers
    } else if same_text(string_code, "lightssleetshowersandthunder") {
        WeatherCode::LightsSleetShowersAndThunder
    } else if same_text(string_code, "lightssnowshowersandthunder") {
        WeatherCode::LightsSnowShowersAndThunder
    } else if same_text(string_code, "partlycloudy") {
        WeatherCode::PartlyCloudy
    } else if same_text(string_code, "rain") {
        WeatherCode::Rain
    } else if same_text(string_code, "rainandthunder") {
        WeatherCode::RainAndThunder
    } else if same_text(string_code, "rainshowers") {
        WeatherCode::RainShowers
    } else if same_text(string_code, "rainshowersandthunder") {
        WeatherCode::RainShowersAndThunder
    } else if same_text(string_code, "sleet") {
        WeatherCode::Sleet
    } else {
        WeatherCode::ClearSky
    }
}

} // verus!
