//! Coordinates, and reading them from the geocoding provider's answers.
use vstd::prelude::*;

use crate::decimal::{decimal_of, lemma_pow10_38, lemma_pow10_39, lemma_pow10_mono, parse_decimal, pow10, Decimal};
use crate::error::{check_status, status_result, RequestError};
use crate::json::{
    element, get_element, get_member, get_member_of, get_text, json_of, member,
    member_of, read_json, text_of, JsonValue,
};

verus! {

/// A point on the globe, in degrees.
#[derive(Debug, Clone, Copy, PartialEq, Eq, Structural)]
pub struct GeoCoordinate {
    pub latitude: Decimal,
    pub longitude: Decimal,
}

/// The magnitude of a decimal's digits.
pub open spec fn magnitude(d: Decimal) -> int {
    if d.mantissa < 0 {
        -d.mantissa
    } else {
        d.mantissa as int
    }
}

/// `-bound <= d <= bound`.
pub open spec fn within(d: Decimal, bound: int) -> bool {
    if d.scale >= 0 {
        magnitude(d) <= bound * pow10(d.scale as nat)
    } else {
        magnitude(d) * pow10((-d.scale) as nat) <= bound
    }
}

/// The coordinate of a latitude and a longitude, where both are in range.
pub open spec fn coordinate_of(latitude: Decimal, longitude: Decimal) -> Result<GeoCoordinate, RequestError> {
    if within(latitude, 90) && within(longitude, 180) {
        Ok(GeoCoordinate { latitude, longitude })
    } else {
        Err(RequestError::OutOfRange)
    }
}

impl GeoCoordinate {
    /// Latitude in `-90..=90`, longitude in `-180..=180`.
    pub open spec fn wf(self) -> bool {
        within(self.latitude, 90) && within(self.longitude, 180)
    }

    /// Builds a coordinate; a value out of range is an error, never clamped.
    pub fn new(latitude: Decimal, longitude: Decimal) -> (r: Result<GeoCoordinate, RequestError>)
        ensures
            r == coordinate_of(latitude, longitude),
            r matches Ok(c) ==> c.wf(),
    {
        if is_within(latitude, 90) && is_within(longitude, 180) {
            Ok(GeoCoordinate { latitude, longitude })
        } else {
            Err(RequestError::OutOfRange)
        }
    }
}

fn is_within(d: Decimal, bound: u128) -> (r: bool)
    requires
        10 <= bound <= 180,
    ensures
        r == within(d, bound as int),
{
    let a: u128 = if d.mantissa < 0 {
        if d.mantissa == i128::MIN {
            170_141_183_460_469_231_731_687_303_715_884_105_728u128
        } else {
            (-d.mantissa) as u128
        }
    } else {
        d.mantissa as u128
    };
    assert(a as int == magnitude(d));
    if d.scale < 0 {
        if a == 0 {
            return true;
        }
        let k = -(d.scale as i64);
        proof {
            lemma_pow10_mono(0, k as nat);
            let q = pow10(k as nat);
            assert(a * q >= a) by (nonlinear_arith)
                requires q >= 1, a >= 1;
        }
        if k >= 3 {
            proof {
                lemma_pow10_mono(3, k as nat);
                reveal_with_fuel(pow10, 4);
                let q = pow10(k as nat);
                assert(a * q >= q) by (nonlinear_arith)
                    requires q >= 1, a >= 1;
            }
            return false;
        }
        if a > bound {
            return false;
        }
        proof {
            reveal_with_fuel(pow10, 3);
        }
        return if k == 1 {
            a * 10 <= bound
        } else {
            a * 100 <= bound
        };
    }
    if d.scale >= 39 {
        proof {
            lemma_pow10_mono(39, d.scale as nat);
            lemma_pow10_39();
            let q = pow10(d.scale as nat);
            assert(bound * q >= q) by (nonlinear_arith)
                requires bound >= 1, q >= 0;
        }
        return true;
    }
    let mut p: u128 = 1;
    let mut i: i32 = 0;
    proof {
        lemma_pow10_mono(0, 38);
        lemma_pow10_38();
    }
    while i < d.scale
        invariant
            0 <= i <= d.scale < 39,
            p == pow10(i as nat),
            1 <= p <= 100_000_000_000_000_000_000_000_000_000_000_000_000u128,
        decreases d.scale - i,
    {
        proof {
            lemma_pow10_mono((i + 1) as nat, 38);
            assert(pow10((i + 1) as nat) == 10 * pow10(i as nat));
            lemma_pow10_38();
        }
        p = p * 10;
        i = i + 1;
    }
    let q = a / p;
    let rm = a % p;
    proof {
        vstd::arithmetic::div_mod::lemma_fundamental_div_mod(a as int, p as int);
        let b = bound as int;
        let pp = p as int;
        if q < bound {
            assert(a <= b * pp) by (nonlinear_arith)
                requires a == pp * q + rm, rm < pp, q < b, q >= 0, pp >= 1;
        } else if q == bound && rm == 0 {
            assert(a == b * pp) by (nonlinear_arith)
                requires a == pp * q + rm, rm == 0, q == b;
        } else if q == bound {
            assert(a > b * pp) by (nonlinear_arith)
                requires a == pp * q + rm, rm > 0, q == b;
        } else {
            assert(a > b * pp) by (nonlinear_arith)
                requires a == pp * q + rm, rm >= 0, q > b, pp >= 1;
        }
    }
    q < bound || (q == bound && rm == 0)
}

/// `s` holds no space.
pub open spec fn no_space(s: Seq<char>) -> bool {
    forall|i: int| 0 <= i < s.len() ==> s[i] != ' '
}

/// `s` has its one space at `k`.
pub open spec fn space_at(s: Seq<char>, k: int) -> bool {
    &&& 0 <= k < s.len()
    &&& s[k] == ' '
    &&& no_space(s.take(k))
    &&& no_space(s.skip(k + 1))
}

/// The coordinate that a provider's position text denotes: two decimals
/// split by one space, the longitude first and the latitude second.
pub open spec fn position_of(pos: Seq<char>) -> Result<GeoCoordinate, RequestError> {
    if exists|k: int| space_at(pos, k) {
        let k = choose|k: int| space_at(pos, k);
        match (decimal_of(pos.take(k)), decimal_of(pos.skip(k + 1))) {
            (Some(longitude), Some(latitude)) => coordinate_of(latitude, longitude),
            _ => Err(RequestError::Parse),
        }
    } else {
        Err(RequestError::Parse)
    }
}

/// The first position at or after `from` that holds a space, or the length.
fn space_from(s: &str, from: usize) -> (j: usize)
    requires
        from <= s@.len(),
    ensures
        from <= j <= s@.len(),
        no_space(s@.subrange(from as int, j as int)),
        j < s@.len() ==> s@[j as int] == ' ',
{
    let n = s.unicode_len();
    let mut j = from;
    while j < n && s.get_char(j) != ' '
        invariant
            from <= j <= n == s@.len(),
            no_space(s@.subrange(from as int, j as int)),
        decreases n - j,
    {
        assert(s@.subrange(from as int, j + 1) =~= s@.subrange(from as int, j as int).push(s@[j as int]));
        j = j + 1;
    }
    j
}

/// Reads a provider's `"<longitude> <latitude>"` text.
pub fn parse_position(pos: &str) -> (r: Result<GeoCoordinate, RequestError>)
    ensures
        r == position_of(pos@),
{
    let n = pos.unicode_len();
    let k = space_from(pos, 0);
    assert(pos@.subrange(0, k as int) =~= pos@.take(k as int));
    if k == n {
        assert(pos@ =~= pos@.take(k as int));
        assert forall|i: int| !space_at(pos@, i) by {
            if space_at(pos@, i) {
                assert(pos@.take(k as int)[i] == ' ');
            }
        }
        return Err(RequestError::Parse);
    }
    let e = space_from(pos, k + 1);
    assert(pos@.subrange(k + 1, n as int) =~= pos@.skip(k + 1));
    if e < n {
        assert(pos@.skip(k + 1)[e - k - 1] == ' ');
        assert forall|i: int| !space_at(pos@, i) by {
            if space_at(pos@, i) {
                if i < k {
                    assert(pos@.take(k as int)[i] == ' ');
                } else if i > k {
                    assert(pos@.take(i)[k as int] == ' ');
                }
            }
        }
        return Err(RequestError::Parse);
    }
    assert(pos@.subrange(k + 1, e as int) =~= pos@.skip(k + 1));
    assert(space_at(pos@, k as int));
    assert forall|i: int| space_at(pos@, i) implies i == k by {
        if i < k {
            assert(pos@.take(k as int)[i] == ' ');
        } else if i > k {
            assert(pos@.take(i)[k as int] == ' ');
        }
    }
    let lon_text = pos.substring_char(0, k);
    let lat_text = pos.substring_char(k + 1, n);
    match (parse_decimal(lon_text), parse_decimal(lat_text)) {
        (Some(longitude), Some(latitude)) => GeoCoordinate::new(latitude, longitude),
        _ => Err(RequestError::Parse),
    }
}

/// A text of two decimals split by one space reads as the longitude
/// first and the latitude second.
pub proof fn lemma_position_order(lon: Seq<char>, lat: Seq<char>)
    requires
        no_space(lon),
        no_space(lat),
        decimal_of(lon) is Some,
        decimal_of(lat) is Some,
    ensures
        position_of(lon + seq![' '] + lat) == coordinate_of(decimal_of(lat)->0, decimal_of(lon)->0),
{
    let s = lon + seq![' '] + lat;
    let k = lon.len() as int;
    assert(s.take(k) =~= lon);
    assert(s.skip(k + 1) =~= lat);
    assert(space_at(s, k));
    assert forall|i: int| space_at(s, i) implies i == k by {
        if i < k {
            assert(s[i] == lon[i]);
        } else if i > k {
            assert(s[i] == lat[i - k - 1]);
        }
    }
}

/// The position text of the first feature of a geocoding answer.
pub open spec fn geo_position(doc: JsonValue) -> Option<Seq<char>> {
    let members = member_of(member_of(member(doc, "response"@), "GeoObjectCollection"@), "featureMember"@);
    let first = match members {
        Some(m) => element(m, 0),
        None => None,
    };
    match member_of(member_of(member_of(first, "GeoObject"@), "Point"@), "pos"@) {
        Some(p) => text_of(p),
        None => None,
    }
}

/// The coordinate that a geocoding answer gives.
pub open spec fn geo_of(doc: JsonValue) -> Result<GeoCoordinate, RequestError> {
    match geo_position(doc) {
        Some(p) => position_of(p),
        None => Err(RequestError::Parse),
    }
}

/// Reads the coordinate of the first feature of a geocoding answer, at
/// `response.GeoObjectCollection.featureMember[0].GeoObject.Point.pos`.
pub fn parse_geo_response(value: &JsonValue) -> (r: Result<GeoCoordinate, RequestError>)
    ensures
        r == geo_of(*value),
        r matches Ok(c) ==> c.wf(),
{
    let members = get_member_of(get_member_of(get_member(value, "response"), "GeoObjectCollection"), "featureMember");
    let first = match members {
        Some(m) => get_element(m, 0),
        None => None,
    };
    let pos = get_member_of(get_member_of(get_member_of(first, "GeoObject"), "Point"), "pos");
    let text = match pos {
        Some(p) => get_text(p),
        None => None,
    };
    match text {
        Some(t) => parse_position(t),
        None => Err(RequestError::Parse),
    }
}

/// Turns a geocoding provider's answer, its HTTP status and body, into a
/// coordinate: the status decides first, then the body is read as JSON.
pub fn resolve_geo_response(status: u16, body: &str) -> (r: Result<GeoCoordinate, RequestError>)
    ensures
        r == match status_result(status) {
            Err(e) => Err(e),
            Ok(()) => match json_of(body@) {
                Some(doc) => geo_of(doc),
                None => Err(RequestError::Parse),
            },
        },
        r matches Ok(c) ==> c.wf(),
{
    match check_status(status) {
        Err(e) => Err(e),
        Ok(()) => match read_json(body) {
            Some(doc) => parse_geo_response(&doc),
            None => Err(RequestError::Parse),
        },
    }
}

/// The geocoding query for an address, with the provider's credential.
pub fn geo_request_url(api_key: &str, address: &str) -> (r: String)
    ensures
        r@ == "https://geocode-maps.yandex.ru/1.x/?apikey="@ + api_key@ + "&geocode="@ + address@
            + "&format=json"@,
{
    let mut url = String::from_str("https://geocode-maps.yandex.ru/1.x/?apikey=");
    url.append(api_key);
    url.append("&geocode=");
    url.append(address);
    url.append("&format=json");
    url
}

} // verus!
