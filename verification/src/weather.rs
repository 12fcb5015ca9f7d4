//! Open-Meteo forecast → WX panel data.

use vstd::prelude::*;
use chrono::Datelike;
use crate::clock::weekday_abbr;
use crate::dashboard::{fog_word, law_icon_table, rain_word, snow_word, spec_icon_kind, storm_word, sun_word, Icon};
use crate::data::{WeatherData, WeatherDay};
use crate::text::{string_of};

verus! {

/// Panel condition for a WMO weather code.
pub open spec fn spec_wmo_to_cond(code: u64) -> Seq<char> {
    if code <= 1 {
        "SUN"@
    } else if code <= 3 {
        "CLOUD"@
    } else if 45 <= code <= 48 {
        "FOG"@
    } else if 51 <= code <= 67 {
        "RAIN"@
    } else if 71 <= code <= 77 {
        "SNOW"@
    } else if 80 <= code <= 82 {
        "RAIN"@
    } else if 85 <= code <= 86 {
        "SNOW"@
    } else if 95 <= code <= 99 {
        "STORM"@
    } else {
        "CLOUD"@
    }
}

/// Maps a WMO weather code to the icon condition the panel draws.
pub fn wmo_to_cond(code: u64) -> (r: &'static str)
    ensures
        r@ == spec_wmo_to_cond(code),
{
    if code <= 1 {
        "SUN"
    } else if code <= 3 {
        "CLOUD"
    } else if 45 <= code && code <= 48 {
        "FOG"
    } else if 51 <= code && code <= 67 {
        "RAIN"
    } else if 71 <= code && code <= 77 {
        "SNOW"
    } else if 80 <= code && code <= 82 {
        "RAIN"
    } else if 85 <= code && code <= 86 {
        "SNOW"
    } else if 95 <= code && code <= 99 {
        "STORM"
    } else {
        "CLOUD"
    }
}

/// The WMO codes each condition stands for: SUN for 0 and 1 (clear,
/// mainly clear), CLOUD for 2 and 3 (partly cloudy, overcast) and every
/// code outside the table, FOG for 45 to 48, RAIN for 51 to 67 and 80 to
/// 82, SNOW for 71 to 77 and 85 to 86, STORM for 95 to 99; and the glyph
/// drawn for each is the one of that weather.
pub proof fn law_wmo_conditions(code: u64)
    ensures
        (spec_wmo_to_cond(code) == "SUN"@) <==> code <= 1,
        (spec_wmo_to_cond(code) == "FOG"@) <==> 45 <= code <= 48,
        (spec_wmo_to_cond(code) == "RAIN"@) <==> (51 <= code <= 67 || 80 <= code <= 82),
        (spec_wmo_to_cond(code) == "SNOW"@) <==> (71 <= code <= 77 || 85 <= code <= 86),
        (spec_wmo_to_cond(code) == "STORM"@) <==> 95 <= code <= 99,
        (spec_wmo_to_cond(code) == "CLOUD"@) <==> !(code <= 1 || 45 <= code <= 48 || 51 <= code <= 67 || 71 <= code <= 77
            || 80 <= code <= 82 || 85 <= code <= 86 || 95 <= code <= 99),
        code <= 1 ==> spec_icon_kind(spec_wmo_to_cond(code)) == Icon::Sun,
        2 <= code <= 3 ==> spec_icon_kind(spec_wmo_to_cond(code)) == Icon::Cloud,
        45 <= code <= 48 ==> spec_icon_kind(spec_wmo_to_cond(code)) == Icon::Fog,
        (51 <= code <= 67 || 80 <= code <= 82) ==> spec_icon_kind(spec_wmo_to_cond(code)) == Icon::Rain,
        (71 <= code <= 77 || 85 <= code <= 86) ==> spec_icon_kind(spec_wmo_to_cond(code)) == Icon::Snow,
        95 <= code <= 99 ==> spec_icon_kind(spec_wmo_to_cond(code)) == Icon::Storm,
{
    reveal_strlit("SUN");
    reveal_strlit("CLOUD");
    reveal_strlit("FOG");
    reveal_strlit("RAIN");
    reveal_strlit("SNOW");
    reveal_strlit("STORM");
    let w = spec_wmo_to_cond(code);
    law_icon_table(w);
    assert("SNOW"@[1] != "STORM"@[1]);
    assert("SUN"@[1] != "FOG"@[1]);
    assert("RAIN"@[0] != "SNOW"@[0]);
    assert("CLOUD"@[0] != "STORM"@[0]);
    if 2 <= code <= 3 {
        reveal_strlit("CLEAR");
        reveal_strlit("SUNNY");
        reveal_strlit("RAINY");
        reveal_strlit("SNOWY");
        reveal_strlit("SLEET");
        reveal_strlit("SMOKE");
        assert(w == "CLOUD"@);
        assert(w[2] == 'O' && w[0] == 'C');
        assert("CLEAR"@[2] == 'E');
        assert("SUNNY"@[0] == 'S' && "RAINY"@[0] == 'R' && "SNOWY"@[0] == 'S' && "SLEET"@[0] == 'S');
        assert("SMOKE"@[0] == 'S' && "STORM"@[0] == 'S');
        reveal_strlit("SUN");
        reveal_strlit("FAIR");
        reveal_strlit("SHOWERS");
        reveal_strlit("DRIZZLE");
        reveal_strlit("THUNDER");
        reveal_strlit("THUNDERSTORM");
        reveal_strlit("MIST");
        reveal_strlit("HAZE");
        assert(!(sun_word(w) || rain_word(w) || storm_word(w) || snow_word(w) || fog_word(w)));
    }
}

/// Weekday (Monday = 0) of a `%Y-%m-%d` date as chrono parses it; `None`
/// when chrono rejects the text. Deterministic in the text.
pub uninterp spec fn spec_iso_date_weekday(s: Seq<char>) -> Option<u32>;

/// `NaiveDate::parse_from_str(s, "%Y-%m-%d")` and its weekday.
#[verifier::external_body]
fn iso_date_weekday(s: &str) -> (r: Option<u32>)
    ensures
        r == spec_iso_date_weekday(s@),
        r matches Some(d) ==> d < 7,
{
    chrono::NaiveDate::parse_from_str(s, "%Y-%m-%d").ok().map(|d| d.weekday().num_days_from_monday())
}

/// Three-letter weekday of a forecast date, `---` when unparseable.
pub open spec fn spec_dow_from_date(s: Seq<char>) -> Seq<char> {
    match spec_iso_date_weekday(s) {
        Some(d) => weekday_abbr(d),
        None => "---"@,
    }
}

pub fn dow_from_date(s: &str) -> (r: &'static str)
    ensures
        r@ == spec_dow_from_date(s@),
{
    match iso_date_weekday(s) {
        Some(d) => crate::clock::weekday_name(d),
        None => "---",
    }
}

/// The daily series of a forecast: dates, weather codes, and the daily
/// high/low already rounded to whole degrees.
pub struct DailySeries {
    pub times: Vec<String>,
    pub codes: Vec<u64>,
    pub maxs: Vec<i8>,
    pub mins: Vec<i8>,
}

pub open spec fn get_or<T>(s: Seq<T>, i: int, d: T) -> T {
    if 0 <= i < s.len() { s[i] } else { d }
}

/// Plain-value form of a forecast day.
pub type DayView = (Seq<char>, i8, i8, Seq<char>);

pub open spec fn day_view(d: WeatherDay) -> DayView {
    (d.day@, d.hi, d.lo, d.cond@)
}

/// Forecast strip: days 1..=4 of the series (today skipped), missing
/// values read as 0.
pub open spec fn spec_forecast(times: Seq<Seq<char>>, codes: Seq<u64>, maxs: Seq<i8>, mins: Seq<i8>) -> Seq<DayView> {
    let n = if times.len() <= 1 { 0 } else if times.len() - 1 <= 4 { times.len() - 1 } else { 4 };
    Seq::new(
        n as nat,
        |k: int|
            (
                spec_dow_from_date(times[k + 1]),
                get_or(maxs, k + 1, 0i8),
                get_or(mins, k + 1, 0i8),
                spec_wmo_to_cond(get_or(codes, k + 1, 0u64)),
            ),
    )
}

/// WX panel data from the current temperature (rounded), the current WMO
/// code and the daily series.
pub fn weather_from(temp_c: i8, code: u64, daily: &DailySeries) -> (r: WeatherData)
    ensures
        r.temp_c == temp_c,
        r.condition@ == spec_wmo_to_cond(code),
        r.hi == get_or(daily.maxs@, 0, 0i8),
        r.lo == get_or(daily.mins@, 0, 0i8),
        r.hourly@.len() == 0,
        r.forecast@.len() == spec_forecast(daily.times@.map_values(|t: String| t@), daily.codes@, daily.maxs@, daily.mins@).len(),
        forall|k: int| 0 <= k < r.forecast@.len() ==> day_view(#[trigger] r.forecast@[k]) == spec_forecast(daily.times@.map_values(|t: String| t@), daily.codes@, daily.maxs@, daily.mins@)[k],
{
    let ghost ts = daily.times@.map_values(|t: String| t@);
    let hi = if daily.maxs.len() > 0 { daily.maxs[0] } else { 0 };
    let lo = if daily.mins.len() > 0 { daily.mins[0] } else { 0 };
    let mut forecast: Vec<WeatherDay> = Vec::new();
    let n = daily.times.len();
    let ghost sf = spec_forecast(ts, daily.codes@, daily.maxs@, daily.mins@);
    let mut k: usize = 0;
    while k < 4 && k + 1 < n
        invariant
            k <= 4,
            k + 1 <= n || k == 0,
            n == daily.times@.len(),
            ts == daily.times@.map_values(|t: String| t@),
            sf == spec_forecast(ts, daily.codes@, daily.maxs@, daily.mins@),
            forecast@.len() == k,
            forall|q: int| 0 <= q < k ==> day_view(#[trigger] forecast@[q]) == sf[q],
        decreases 4 - k,
    {
        proof {
            reveal_strlit("---");
        }
        let i = k + 1;
        assert(ts[i as int] == daily.times@[i as int]@);
        let day = string_of(dow_from_date(daily.times[i].as_str()));
        let hi_i = if i < daily.maxs.len() { daily.maxs[i] } else { 0 };
        let lo_i = if i < daily.mins.len() { daily.mins[i] } else { 0 };
        let code_i = if i < daily.codes.len() { daily.codes[i] } else { 0 };
        let cond = string_of(wmo_to_cond(code_i));
        forecast.push(WeatherDay { day, hi: hi_i, lo: lo_i, cond });
        assert(sf.len() > k);
        k += 1;
    }
    assert(sf.len() == k);
    WeatherData {
        temp_c,
        condition: string_of(wmo_to_cond(code)),
        hi,
        lo,
        hourly: Vec::new(),
        forecast,
    }
}

} // verus!
