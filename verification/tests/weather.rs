use aprs_decode::weather::{Humidity, Luminosity, Pressure, Rainfall, Snowfall, Temperature, WindDirection, WindSpeed};
use aprs_decode::{AprsPositionlessWeather, AprsWeatherData};

#[test]
fn parse_full_weather() {
    let wx = AprsWeatherData::parse(b"220/004g005t077r000p000P000h50b09900").unwrap();
    assert_eq!(wx.wind_direction.unwrap().degrees(), 220);
    assert_eq!(wx.wind_speed.unwrap().mph(), 4);
    assert_eq!(wx.wind_gust.unwrap().mph(), 5);
    assert_eq!(wx.temperature.unwrap().fahrenheit(), 77);
    assert_eq!(wx.rain_last_hour.unwrap().hundredths_inch(), 0);
    assert_eq!(wx.humidity.unwrap().percent(), 50);
    assert_eq!(wx.barometric_pressure.unwrap().tenths_mbar(), 9900);
}

#[test]
fn humidity_100_encoded_as_00() {
    let wx = AprsWeatherData::parse(b"000/000h00").unwrap();
    assert_eq!(wx.humidity.unwrap().percent(), 100);
}

#[test]
fn negative_temperature() {
    let wx = AprsWeatherData::parse(b"000/000g000t-10").unwrap();
    assert_eq!(wx.temperature.unwrap().fahrenheit(), -10);
}

#[test]
fn luminosity_high() {
    let wx = AprsWeatherData::parse(b"000/000L042").unwrap();
    assert_eq!(wx.luminosity.unwrap().w_per_m2(), 1042);
}

#[test]
fn unknown_fields_stop_parsing() {
    let wx = AprsWeatherData::parse(b"220/004g005XUNKNOWN").unwrap();
    assert_eq!(wx.wind_direction.unwrap().degrees(), 220);
    assert_eq!(wx.wind_gust.unwrap().mph(), 5);
    assert!(wx.temperature.is_none());
}

#[test]
fn weather_encode_round_trip() {
    let raw = b"220/004g005t077r000p000P000h50b09900";
    let wx = AprsWeatherData::parse(raw).unwrap();
    let mut out = Vec::new();
    wx.encode(&mut out);
    assert_eq!(out.as_slice(), raw.as_slice());
}

#[test]
fn positionless_parse() {
    let pw = AprsPositionlessWeather::parse(b"_10071820220/004g005t077").unwrap();
    assert_eq!(pw.timestamp, b"10071820");
    assert_eq!(pw.weather.wind_direction.unwrap().degrees(), 220);
    assert_eq!(pw.weather.temperature.unwrap().fahrenheit(), 77);
}

#[test]
fn positionless_encode_round_trip() {
    let raw = b"_10071820220/004g005t077";
    let pw = AprsPositionlessWeather::parse(raw).unwrap();
    assert_eq!(pw.encode().as_slice(), raw.as_slice());
}

#[test]
fn weather_missing_values_and_snow() {
    let wx = AprsWeatherData::parse(b".../...t...s012#034l999").unwrap();
    assert!(wx.wind_direction.is_none());
    assert!(wx.wind_speed.is_none());
    assert!(wx.temperature.is_none());
    assert_eq!(wx.snow_last_24h, Some(Snowfall(12)));
    assert_eq!(wx.raw_rain_counter, Some(34));
    assert_eq!(wx.luminosity, Some(Luminosity(999)));
    let mut out = Vec::new();
    wx.encode(&mut out);
    assert_eq!(out, b".../...s012#034l999");
}

#[test]
fn weather_encode_exact() {
    let wx = AprsWeatherData {
        wind_direction: Some(WindDirection(5)),
        wind_speed: Some(WindSpeed(12)),
        wind_gust: None,
        temperature: Some(Temperature(-5)),
        rain_last_hour: Some(Rainfall(1)),
        rain_last_24h: None,
        rain_since_midnight: None,
        humidity: Some(Humidity(100)),
        barometric_pressure: Some(Pressure(10250)),
        luminosity: Some(Luminosity(1042)),
        snow_last_24h: None,
        raw_rain_counter: None,
    };
    let mut out = Vec::new();
    wx.encode(&mut out);
    assert_eq!(out, b"005/012t-05r001h00b10250L042");
    assert_eq!(AprsWeatherData::parse(&out).unwrap(), wx);
}

#[test]
fn weather_errors() {
    assert!(matches!(
        AprsWeatherData::parse(b"220/04"),
        Err(aprs_decode::AprsError::TruncatedPacket { expected: 7, got: 6 })
    ));
    assert!(matches!(
        AprsWeatherData::parse(b"2200004"),
        Err(aprs_decode::AprsError::TruncatedPacket { expected: 7, got: 7 })
    ));
    assert!(matches!(
        AprsPositionlessWeather::parse(b"_1007"),
        Err(aprs_decode::AprsError::TruncatedPacket { expected: 9, got: 5 })
    ));
}

#[test]
fn weather_default_is_empty() {
    let wx = AprsWeatherData::default();
    assert!(wx.wind_direction.is_none() && wx.humidity.is_none() && wx.raw_rain_counter.is_none());
}
