use vstd::prelude::*;
use vstd::std_specs::vec::axiom_vec_index_decreases;

verus! {

#[verifier::external_type_specification]
#[verifier::external_body]
pub struct ExValue(serde_json::Value);

/// A JSON document as the lookup model reads it: the leaves it inspects,
/// objects as ordered entry lists, and everything else (numbers, arrays)
/// carried through untouched.
#[derive(Debug)]
pub enum Json {
    Null,
    Bool(bool),
    Str(String),
    Object(Vec<(String, Json)>),
    Other(serde_json::Value),
}

/// One level of a `serde_json::Value`.
#[derive(Debug)]
pub enum Shape {
    Null,
    Bool(bool),
    Str(String),
    Object(Vec<(String, serde_json::Value)>),
    Other(serde_json::Value),
}

/// Why a response body could not be read as a lookup result.
#[derive(Clone, Copy, Debug, PartialEq, Eq, Structural)]
pub enum DecodeError {
    /// The body is not JSON text.
    Syntax,
    /// The body is JSON, but not an object, or a known field has the wrong type.
    Shape,
}

#[derive(Clone, Debug)]
pub struct Security {
    pub vpn: Option<bool>,
    pub proxy: Option<bool>,
    pub tor: Option<bool>,
    pub relay: Option<bool>,
}

#[derive(Clone, Debug)]
pub struct Location {
    pub city: Option<String>,
    pub region: Option<String>,
    pub country: Option<String>,
    pub continent: Option<String>,
    pub region_code: Option<String>,
    pub continent_code: Option<String>,
    pub latitude: Option<String>,
    pub longitude: Option<String>,
    pub time_zone: Option<String>,
    pub locale_code: Option<String>,
    pub metro_code: Option<String>,
    pub is_in_european_union: Option<bool>,
}

#[derive(Clone, Debug)]
pub struct Network {
    pub network: Option<String>,
    pub autonomous_system_number: Option<String>,
    pub autonomous_system_organization: Option<String>,
}

/// What the lookup service answered: known fields, plus every other
/// top-level entry in its original order.
#[derive(Debug)]
pub struct VpnApiResult {
    pub ip: Option<String>,
    pub security: Option<Security>,
    pub location: Option<Location>,
    pub network: Option<Network>,
    pub message: Option<String>,
    pub other: Vec<(String, Json)>,
}

// ---------------------------------------------------------------------------
// Entry lists.
// ---------------------------------------------------------------------------

/// Index of the last entry with key `k`, or -1.
pub open spec fn last_index(es: Seq<(String, Json)>, k: Seq<char>) -> int
    decreases es.len(),
{
    if es.len() == 0 {
        -1
    } else if es.last().0@ == k {
        es.len() - 1
    } else {
        last_index(es.drop_last(), k)
    }
}

/// The value under key `k`; a later entry hides an earlier one.
pub open spec fn find(es: Seq<(String, Json)>, k: Seq<char>) -> Option<Json> {
    let i = last_index(es, k);
    if 0 <= i < es.len() {
        Some(es[i].1)
    } else {
        None
    }
}

pub open spec fn is_known_key(k: Seq<char>) -> bool {
    k == "ip"@ || k == "security"@ || k == "location"@ || k == "network"@ || k == "message"@
}

/// The entries whose key is none of the known fields, in order.
pub open spec fn unknown_entries(es: Seq<(String, Json)>) -> Seq<(String, Json)>
    decreases es.len(),
{
    if es.len() == 0 {
        seq![]
    } else if is_known_key(es.last().0@) {
        unknown_entries(es.drop_last())
    } else {
        unknown_entries(es.drop_last()).push(es.last())
    }
}

proof fn lemma_last_index_bounds(es: Seq<(String, Json)>, k: Seq<char>)
    ensures
        -1 <= last_index(es, k) < es.len(),
        last_index(es, k) >= 0 ==> es[last_index(es, k)].0@ == k,
    decreases es.len(),
{
    if es.len() > 0 && es.last().0@ != k {
        lemma_last_index_bounds(es.drop_last(), k);
    }
}

fn str_eq(a: &str, b: &str) -> (r: bool)
    ensures
        r == (a@ == b@),
{
    let n = a.unicode_len();
    if n != b.unicode_len() {
        return false;
    }
    let mut i: usize = 0;
    while i < n
        invariant
            n == a@.len() == b@.len(),
            i <= n,
            a@.subrange(0, i as int) == b@.subrange(0, i as int),
        decreases n - i,
    {
        if a.get_char(i) != b.get_char(i) {
            return false;
        }
        i = i + 1;
        assert(a@.subrange(0, i as int) =~= a@.subrange(0, i - 1) + seq![a@[i - 1]]);
        assert(b@.subrange(0, i as int) =~= b@.subrange(0, i - 1) + seq![b@[i - 1]]);
    }
    assert(a@ =~= a@.subrange(0, n as int));
    assert(b@ =~= b@.subrange(0, n as int));
    true
}

/// Index of the last entry with key `k`.
fn find_index(es: &Vec<(String, Json)>, k: &str) -> (r: Option<usize>)
    ensures
        r is None <==> last_index(es@, k@) == -1,
        r matches Some(i) ==> i == last_index(es@, k@) && i < es.len(),
{
    let mut found: Option<usize> = None;
    let mut i: usize = 0;
    while i < es.len()
        invariant
            i <= es.len(),
            found is None <==> last_index(es@.take(i as int), k@) == -1,
            found matches Some(j) ==> j == last_index(es@.take(i as int), k@),
        decreases es.len() - i,
    {
        assert(es@.take(i + 1).drop_last() =~= es@.take(i as int));
        proof {
            lemma_last_index_bounds(es@.take(i as int), k@);
        }
        if str_eq(es[i].0.as_str(), k) {
            found = Some(i);
        }
        i = i + 1;
    }
    assert(es@.take(i as int) =~= es@);
    proof {
        lemma_last_index_bounds(es@, k@);
    }
    found
}

fn is_known(k: &str) -> (r: bool)
    ensures
        r == is_known_key(k@),
{
    str_eq(k, "ip") || str_eq(k, "security") || str_eq(k, "location") || str_eq(k, "network")
        || str_eq(k, "message")
}

// ---------------------------------------------------------------------------
// Fields.
// ---------------------------------------------------------------------------

/// A text field holding `v`: absent or null gives `None`.
pub open spec fn str_slot(es: Seq<(String, Json)>, k: Seq<char>, v: Option<String>) -> bool {
    match find(es, k) {
        None | Some(Json::Null) => v is None,
        Some(Json::Str(s)) => v == Some(s),
        _ => false,
    }
}

pub open spec fn str_ok(es: Seq<(String, Json)>, k: Seq<char>) -> bool {
    match find(es, k) {
        None | Some(Json::Null) | Some(Json::Str(_)) => true,
        _ => false,
    }
}

pub open spec fn bool_slot(es: Seq<(String, Json)>, k: Seq<char>, v: Option<bool>) -> bool {
    match find(es, k) {
        None | Some(Json::Null) => v is None,
        Some(Json::Bool(b)) => v == Some(b),
        _ => false,
    }
}

pub open spec fn bool_ok(es: Seq<(String, Json)>, k: Seq<char>) -> bool {
    match find(es, k) {
        None | Some(Json::Null) | Some(Json::Bool(_)) => true,
        _ => false,
    }
}

fn str_field(es: &Vec<(String, Json)>, k: &str) -> (r: Result<Option<String>, DecodeError>)
    ensures
        r is Ok <==> str_ok(es@, k@),
        r matches Ok(v) ==> str_slot(es@, k@, v),
        r matches Err(e) ==> e == DecodeError::Shape,
{
    match find_index(es, k) {
        None => Ok(None),
        Some(i) => match &es[i].1 {
            Json::Null => Ok(None),
            Json::Str(s) => Ok(Some(s.clone())),
            _ => Err(DecodeError::Shape),
        },
    }
}

fn bool_field(es: &Vec<(String, Json)>, k: &str) -> (r: Result<Option<bool>, DecodeError>)
    ensures
        r is Ok <==> bool_ok(es@, k@),
        r matches Ok(v) ==> bool_slot(es@, k@, v),
        r matches Err(e) ==> e == DecodeError::Shape,
{
    match find_index(es, k) {
        None => Ok(None),
        Some(i) => match &es[i].1 {
            Json::Null => Ok(None),
            Json::Bool(b) => Ok(Some(*b)),
            _ => Err(DecodeError::Shape),
        },
    }
}


proof fn lemma_find_skip_last(es: Seq<(String, Json)>, k: Seq<char>)
    requires
        es.len() > 0,
        es.last().0@ != k,
    ensures
        find(es, k) == find(es.drop_last(), k),
{
    lemma_last_index_bounds(es.drop_last(), k);
}

proof fn lemma_find_keep(prev: Seq<(String, Json)>, es: Seq<(String, Json)>, k: Seq<char>)
    requires
        es == prev || (es.len() > 0 && es.drop_last() == prev && es.last().0@ == k),
    ensures
        forall|d: Seq<char>| d != k ==> #[trigger] find(es, d) == find(prev, d),
{
    assert forall|d: Seq<char>| d != k implies #[trigger] find(es, d) == find(prev, d) by {
        if es != prev {
            lemma_find_skip_last(es, d);
        }
    }
}

fn push_str(es: &mut Vec<(String, Json)>, k: &str, v: Option<String>)
    ensures
        final(es)@.len() == old(es)@.len() + cnt(v),
        v is None ==> final(es)@ == old(es)@,
        v is Some ==> final(es)@.len() > 0 && final(es)@.drop_last() == old(es)@
            && final(es)@.last().0@ == k@,
        v is Some ==> find(final(es)@, k@) == str_json(v),
{
    match v {
        Some(x) => push_entry(es, k, Json::Str(x)),
        None => {},
    }
}

fn push_bool(es: &mut Vec<(String, Json)>, k: &str, v: Option<bool>)
    ensures
        final(es)@.len() == old(es)@.len() + cnt(v),
        v is None ==> final(es)@ == old(es)@,
        v is Some ==> final(es)@.len() > 0 && final(es)@.drop_last() == old(es)@
            && final(es)@.last().0@ == k@,
        v is Some ==> find(final(es)@, k@) == bool_json(v),
{
    match v {
        Some(x) => push_entry(es, k, Json::Bool(x)),
        None => {},
    }
}

fn push_entry(es: &mut Vec<(String, Json)>, k: &str, x: Json)
    ensures
        final(es)@.len() == old(es)@.len() + 1,
        final(es)@.drop_last() == old(es)@,
        final(es)@.last().0@ == k@,
        final(es)@.last().1 == x,
        find(final(es)@, k@) == Some(x),
        forall|k2: Seq<char>| k2 != k@ ==> find(final(es)@, k2) == find(old(es)@, k2),
        is_known_key(k@) ==> unknown_entries(final(es)@) == unknown_entries(old(es)@),
{
    let ghost before = es@;
    es.push((k.to_owned(), x));
    assert(es@.drop_last() =~= before);
    proof {
        lemma_last_index_bounds(before, k@);
        assert forall|k2: Seq<char>| k2 != k@ implies find(es@, k2) == find(before, k2) by {
            lemma_last_index_bounds(before, k2);
        }
    }
}

/// One for a present field, zero for an absent one.
pub open spec fn cnt<T>(o: Option<T>) -> int {
    if o is Some {
        1
    } else {
        0
    }
}

pub open spec fn str_json(v: Option<String>) -> Option<Json> {
    match v {
        Some(s) => Some(Json::Str(s)),
        None => None,
    }
}

pub open spec fn bool_json(v: Option<bool>) -> Option<Json> {
    match v {
        Some(b) => Some(Json::Bool(b)),
        None => None,
    }
}
/// `es` decodes to the security record `r`.
pub open spec fn security_decoded(es: Seq<(String, Json)>, r: Security) -> bool {
    bool_slot(es, "vpn"@, r.vpn)
    && bool_slot(es, "proxy"@, r.proxy)
    && bool_slot(es, "tor"@, r.tor)
    && bool_slot(es, "relay"@, r.relay)
}

pub open spec fn security_ok(es: Seq<(String, Json)>) -> bool {
    bool_ok(es, "vpn"@)
    && bool_ok(es, "proxy"@)
    && bool_ok(es, "tor"@)
    && bool_ok(es, "relay"@)
}

/// `es` holds each field of `r` that is present, under its name, and nothing
/// else.
pub open spec fn security_encoded(es: Seq<(String, Json)>, r: Security) -> bool {
    find(es, "vpn"@) == bool_json(r.vpn)
    && find(es, "proxy"@) == bool_json(r.proxy)
    && find(es, "tor"@) == bool_json(r.tor)
    && find(es, "relay"@) == bool_json(r.relay)
    && es.len() == cnt(r.vpn) + cnt(r.proxy) + cnt(r.tor) + cnt(r.relay)
}

pub open spec fn security_slot(es: Seq<(String, Json)>, v: Option<Security>) -> bool {
    match find(es, "security"@) {
        None | Some(Json::Null) => v is None,
        Some(Json::Object(sub)) => v matches Some(r) && security_decoded(sub@, r),
        _ => false,
    }
}

pub open spec fn security_slot_ok(es: Seq<(String, Json)>) -> bool {
    match find(es, "security"@) {
        None | Some(Json::Null) => true,
        Some(Json::Object(sub)) => security_ok(sub@),
        _ => false,
    }
}

fn security_from(es: &Vec<(String, Json)>) -> (r: Result<Security, DecodeError>)
    ensures
        r is Ok <==> security_ok(es@),
        r matches Ok(v) ==> security_decoded(es@, v),
        r matches Err(e) ==> e == DecodeError::Shape,
{
    let vpn = match bool_field(es, "vpn") {
        Ok(v) => v,
        Err(e) => return Err(e),
    };
    let proxy = match bool_field(es, "proxy") {
        Ok(v) => v,
        Err(e) => return Err(e),
    };
    let tor = match bool_field(es, "tor") {
        Ok(v) => v,
        Err(e) => return Err(e),
    };
    let relay = match bool_field(es, "relay") {
        Ok(v) => v,
        Err(e) => return Err(e),
    };
    Ok(Security { vpn, proxy, tor, relay })
}

fn security_field(es: &Vec<(String, Json)>) -> (r: Result<Option<Security>, DecodeError>)
    ensures
        r is Ok <==> security_slot_ok(es@),
        r matches Ok(v) ==> security_slot(es@, v),
        r matches Err(e) ==> e == DecodeError::Shape,
{
    match find_index(es, "security") {
        None => Ok(None),
        Some(i) => match &es[i].1 {
            Json::Null => Ok(None),
            Json::Object(sub) => match security_from(sub) {
                Ok(v) => Ok(Some(v)),
                Err(e) => Err(e),
            },
            _ => Err(DecodeError::Shape),
        },
    }
}

fn security_entries(r: Security) -> (es: Vec<(String, Json)>)
    ensures
        security_encoded(es@, r),
{
    let mut es: Vec<(String, Json)> = Vec::new();
    proof {
        reveal_strlit("vpn");
        assert("vpn"@.len() == 3 && "vpn"@[0] == 'v');
        reveal_strlit("proxy");
        assert("proxy"@.len() == 5 && "proxy"@[0] == 'p');
        reveal_strlit("tor");
        assert("tor"@.len() == 3 && "tor"@[0] == 't');
        reveal_strlit("relay");
        assert("relay"@.len() == 5 && "relay"@[0] == 'r');
    }
    let ghost prev = es@;
    push_bool(&mut es, "vpn", r.vpn);
    proof {
        lemma_find_keep(prev, es@, "vpn"@);
    }
    let ghost prev = es@;
    push_bool(&mut es, "proxy", r.proxy);
    proof {
        lemma_find_keep(prev, es@, "proxy"@);
    }
    let ghost prev = es@;
    push_bool(&mut es, "tor", r.tor);
    proof {
        lemma_find_keep(prev, es@, "tor"@);
    }
    let ghost prev = es@;
    push_bool(&mut es, "relay", r.relay);
    proof {
        lemma_find_keep(prev, es@, "relay"@);
    }
    es
}

/// `es` decodes to the location record `r`.
pub open spec fn location_decoded(es: Seq<(String, Json)>, r: Location) -> bool {
    str_slot(es, "city"@, r.city)
    && str_slot(es, "region"@, r.region)
    && str_slot(es, "country"@, r.country)
    && str_slot(es, "continent"@, r.continent)
    && str_slot(es, "region_code"@, r.region_code)
    && str_slot(es, "continent_code"@, r.continent_code)
    && str_slot(es, "latitude"@, r.latitude)
    && str_slot(es, "longitude"@, r.longitude)
    && str_slot(es, "time_zone"@, r.time_zone)
    && str_slot(es, "locale_code"@, r.locale_code)
    && str_slot(es, "metro_code"@, r.metro_code)
    && bool_slot(es, "is_in_european_union"@, r.is_in_european_union)
}

pub open spec fn location_ok(es: Seq<(String, Json)>) -> bool {
    str_ok(es, "city"@)
    && str_ok(es, "region"@)
    && str_ok(es, "country"@)
    && str_ok(es, "continent"@)
    && str_ok(es, "region_code"@)
    && str_ok(es, "continent_code"@)
    && str_ok(es, "latitude"@)
    && str_ok(es, "longitude"@)
    && str_ok(es, "time_zone"@)
    && str_ok(es, "locale_code"@)
    && str_ok(es, "metro_code"@)
    && bool_ok(es, "is_in_european_union"@)
}

/// `es` holds each field of `r` that is present, under its name, and nothing
/// else.
pub open spec fn location_encoded(es: Seq<(String, Json)>, r: Location) -> bool {
    find(es, "city"@) == str_json(r.city)
    && find(es, "region"@) == str_json(r.region)
    && find(es, "country"@) == str_json(r.country)
    && find(es, "continent"@) == str_json(r.continent)
    && find(es, "region_code"@) == str_json(r.region_code)
    && find(es, "continent_code"@) == str_json(r.continent_code)
    && find(es, "latitude"@) == str_json(r.latitude)
    && find(es, "longitude"@) == str_json(r.longitude)
    && find(es, "time_zone"@) == str_json(r.time_zone)
    && find(es, "locale_code"@) == str_json(r.locale_code)
    && find(es, "metro_code"@) == str_json(r.metro_code)
    && find(es, "is_in_european_union"@) == bool_json(r.is_in_european_union)
    && es.len() == cnt(r.city) + cnt(r.region) + cnt(r.country) + cnt(r.continent) + cnt(r.region_code) + cnt(r.continent_code) + cnt(r.latitude) + cnt(r.longitude) + cnt(r.time_zone) + cnt(r.locale_code) + cnt(r.metro_code) + cnt(r.is_in_european_union)
}

pub open spec fn location_slot(es: Seq<(String, Json)>, v: Option<Location>) -> bool {
    match find(es, "location"@) {
        None | Some(Json::Null) => v is None,
        Some(Json::Object(sub)) => v matches Some(r) && location_decoded(sub@, r),
        _ => false,
    }
}

pub open spec fn location_slot_ok(es: Seq<(String, Json)>) -> bool {
    match find(es, "location"@) {
        None | Some(Json::Null) => true,
        Some(Json::Object(sub)) => location_ok(sub@),
        _ => false,
    }
}

fn location_from(es: &Vec<(String, Json)>) -> (r: Result<Location, DecodeError>)
    ensures
        r is Ok <==> location_ok(es@),
        r matches Ok(v) ==> location_decoded(es@, v),
        r matches Err(e) ==> e == DecodeError::Shape,
{
    let city = match str_field(es, "city") {
        Ok(v) => v,
        Err(e) => return Err(e),
    };
    let region = match str_field(es, "region") {
        Ok(v) => v,
        Err(e) => return Err(e),
    };
    let country = match str_field(es, "country") {
        Ok(v) => v,
        Err(e) => return Err(e),
    };
    let continent = match str_field(es, "continent") {
        Ok(v) => v,
        Err(e) => return Err(e),
    };
    let region_code = match str_field(es, "region_code") {
        Ok(v) => v,
        Err(e) => return Err(e),
    };
    let continent_code = match str_field(es, "continent_code") {
        Ok(v) => v,
        Err(e) => return Err(e),
    };
    let latitude = match str_field(es, "latitude") {
        Ok(v) => v,
        Err(e) => return Err(e),
    };
    let longitude = match str_field(es, "longitude") {
        Ok(v) => v,
        Err(e) => return Err(e),
    };
    let time_zone = match str_field(es, "time_zone") {
        Ok(v) => v,
        Err(e) => return Err(e),
    };
    let locale_code = match str_field(es, "locale_code") {
        Ok(v) => v,
        Err(e) => return Err(e),
    };
    let metro_code = match str_field(es, "metro_code") {
        Ok(v) => v,
        Err(e) => return Err(e),
    };
    let is_in_european_union = match bool_field(es, "is_in_european_union") {
        Ok(v) => v,
        Err(e) => return Err(e),
    };
    Ok(Location { city, region, country, continent, region_code, continent_code, latitude, longitude, time_zone, locale_code, metro_code, is_in_european_union })
}

fn location_field(es: &Vec<(String, Json)>) -> (r: Result<Option<Location>, DecodeError>)
    ensures
        r is Ok <==> location_slot_ok(es@),
        r matches Ok(v) ==> location_slot(es@, v),
        r matches Err(e) ==> e == DecodeError::Shape,
{
    match find_index(es, "location") {
        None => Ok(None),
        Some(i) => match &es[i].1 {
            Json::Null => Ok(None),
            Json::Object(sub) => match location_from(sub) {
                Ok(v) => Ok(Some(v)),
                Err(e) => Err(e),
            },
            _ => Err(DecodeError::Shape),
        },
    }
}

#[verifier::rlimit(80)]
fn location_entries(r: Location) -> (es: Vec<(String, Json)>)
    ensures
        location_encoded(es@, r),
{
    let mut es: Vec<(String, Json)> = Vec::new();
    proof {
        reveal_strlit("city");
        assert("city"@.len() == 4 && "city"@[0] == 'c');
        reveal_strlit("region");
        assert("region"@.len() == 6 && "region"@[0] == 'r');
        reveal_strlit("country");
        assert("country"@.len() == 7 && "country"@[0] == 'c');
        reveal_strlit("continent");
        assert("continent"@.len() == 9 && "continent"@[0] == 'c');
        reveal_strlit("region_code");
        assert("region_code"@.len() == 11 && "region_code"@[0] == 'r');
        reveal_strlit("continent_code");
        assert("continent_code"@.len() == 14 && "continent_code"@[0] == 'c');
        reveal_strlit("latitude");
        assert("latitude"@.len() == 8 && "latitude"@[0] == 'l');
        reveal_strlit("longitude");
        assert("longitude"@.len() == 9 && "longitude"@[0] == 'l');
        reveal_strlit("time_zone");
        assert("time_zone"@.len() == 9 && "time_zone"@[0] == 't');
        reveal_strlit("locale_code");
        assert("locale_code"@.len() == 11 && "locale_code"@[0] == 'l');
        reveal_strlit("metro_code");
        assert("metro_code"@.len() == 10 && "metro_code"@[0] == 'm');
        reveal_strlit("is_in_european_union");
        assert("is_in_european_union"@.len() == 20 && "is_in_european_union"@[0] == 'i');
    }
    let ghost prev = es@;
    push_str(&mut es, "city", r.city);
    proof {
        lemma_find_keep(prev, es@, "city"@);
    }
    let ghost prev = es@;
    push_str(&mut es, "region", r.region);
    proof {
        lemma_find_keep(prev, es@, "region"@);
    }
    let ghost prev = es@;
    push_str(&mut es, "country", r.country);
    proof {
        lemma_find_keep(prev, es@, "country"@);
    }
    let ghost prev = es@;
    push_str(&mut es, "continent", r.continent);
    proof {
        lemma_find_keep(prev, es@, "continent"@);
    }
    let ghost prev = es@;
    push_str(&mut es, "region_code", r.region_code);
    proof {
        lemma_find_keep(prev, es@, "region_code"@);
    }
    let ghost prev = es@;
    push_str(&mut es, "continent_code", r.continent_code);
    proof {
        lemma_find_keep(prev, es@, "continent_code"@);
    }
    let ghost prev = es@;
    push_str(&mut es, "latitude", r.latitude);
    proof {
        lemma_find_keep(prev, es@, "latitude"@);
    }
    let ghost prev = es@;
    push_str(&mut es, "longitude", r.longitude);
    proof {
        lemma_find_keep(prev, es@, "longitude"@);
    }
    let ghost prev = es@;
    push_str(&mut es, "time_zone", r.time_zone);
    proof {
        lemma_find_keep(prev, es@, "time_zone"@);
    }
    let ghost prev = es@;
    push_str(&mut es, "locale_code", r.locale_code);
    proof {
        lemma_find_keep(prev, es@, "locale_code"@);
    }
    let ghost prev = es@;
    push_str(&mut es, "metro_code", r.metro_code);
    proof {
        lemma_find_keep(prev, es@, "metro_code"@);
    }
    let ghost prev = es@;
    push_bool(&mut es, "is_in_european_union", r.is_in_european_union);
    proof {
        lemma_find_keep(prev, es@, "is_in_european_union"@);
    }
    es
}

/// `es` decodes to the network record `r`.
pub open spec fn network_decoded(es: Seq<(String, Json)>, r: Network) -> bool {
    str_slot(es, "network"@, r.network)
    && str_slot(es, "autonomous_system_number"@, r.autonomous_system_number)
    && str_slot(es, "autonomous_system_organization"@, r.autonomous_system_organization)
}

pub open spec fn network_ok(es: Seq<(String, Json)>) -> bool {
    str_ok(es, "network"@)
    && str_ok(es, "autonomous_system_number"@)
    && str_ok(es, "autonomous_system_organization"@)
}

/// `es` holds each field of `r` that is present, under its name, and nothing
/// else.
pub open spec fn network_encoded(es: Seq<(String, Json)>, r: Network) -> bool {
    find(es, "network"@) == str_json(r.network)
    && find(es, "autonomous_system_number"@) == str_json(r.autonomous_system_number)
    && find(es, "autonomous_system_organization"@) == str_json(r.autonomous_system_organization)
    && es.len() == cnt(r.network) + cnt(r.autonomous_system_number) + cnt(r.autonomous_system_organization)
}

pub open spec fn network_slot(es: Seq<(String, Json)>, v: Option<Network>) -> bool {
    match find(es, "network"@) {
        None | Some(Json::Null) => v is None,
        Some(Json::Object(sub)) => v matches Some(r) && network_decoded(sub@, r),
        _ => false,
    }
}

pub open spec fn network_slot_ok(es: Seq<(String, Json)>) -> bool {
    match find(es, "network"@) {
        None | Some(Json::Null) => true,
        Some(Json::Object(sub)) => network_ok(sub@),
        _ => false,
    }
}

fn network_from(es: &Vec<(String, Json)>) -> (r: Result<Network, DecodeError>)
    ensures
        r is Ok <==> network_ok(es@),
        r matches Ok(v) ==> network_decoded(es@, v),
        r matches Err(e) ==> e == DecodeError::Shape,
{
    let network = match str_field(es, "network") {
        Ok(v) => v,
        Err(e) => return Err(e),
    };
    let autonomous_system_number = match str_field(es, "autonomous_system_number") {
        Ok(v) => v,
        Err(e) => return Err(e),
    };
    let autonomous_system_organization = match str_field(es, "autonomous_system_organization") {
        Ok(v) => v,
        Err(e) => return Err(e),
    };
    Ok(Network { network, autonomous_system_number, autonomous_system_organization })
}

fn network_field(es: &Vec<(String, Json)>) -> (r: Result<Option<Network>, DecodeError>)
    ensures
        r is Ok <==> network_slot_ok(es@),
        r matches Ok(v) ==> network_slot(es@, v),
        r matches Err(e) ==> e == DecodeError::Shape,
{
    match find_index(es, "network") {
        None => Ok(None),
        Some(i) => match &es[i].1 {
            Json::Null => Ok(None),
            Json::Object(sub) => match network_from(sub) {
                Ok(v) => Ok(Some(v)),
                Err(e) => Err(e),
            },
            _ => Err(DecodeError::Shape),
        },
    }
}

fn network_entries(r: Network) -> (es: Vec<(String, Json)>)
    ensures
        network_encoded(es@, r),
{
    let mut es: Vec<(String, Json)> = Vec::new();
    proof {
        reveal_strlit("network");
        assert("network"@.len() == 7 && "network"@[0] == 'n');
        reveal_strlit("autonomous_system_number");
        assert("autonomous_system_number"@.len() == 24 && "autonomous_system_number"@[0] == 'a');
        reveal_strlit("autonomous_system_organization");
        assert("autonomous_system_organization"@.len() == 30 && "autonomous_system_organization"@[0] == 'a');
    }
    let ghost prev = es@;
    push_str(&mut es, "network", r.network);
    proof {
        lemma_find_keep(prev, es@, "network"@);
    }
    let ghost prev = es@;
    push_str(&mut es, "autonomous_system_number", r.autonomous_system_number);
    proof {
        lemma_find_keep(prev, es@, "autonomous_system_number"@);
    }
    let ghost prev = es@;
    push_str(&mut es, "autonomous_system_organization", r.autonomous_system_organization);
    proof {
        lemma_find_keep(prev, es@, "autonomous_system_organization"@);
    }
    es
}


// ---------------------------------------------------------------------------
// The whole result.
// ---------------------------------------------------------------------------

impl VpnApiResult {
    /// No entry of `other` carries the key of a known field.
    pub open spec fn wf(&self) -> bool {
        forall|i: int| 0 <= i < self.other@.len() ==> !is_known_key(#[trigger] self.other@[i].0@)
    }
}

/// Every known field of the object `j` has an acceptable type.
pub open spec fn decodable(j: Json) -> bool {
    match j {
        Json::Object(es) => str_ok(es@, "ip"@) && security_slot_ok(es@) && location_slot_ok(es@)
            && network_slot_ok(es@) && str_ok(es@, "message"@),
        _ => false,
    }
}

/// `v` is what the object `j` decodes to: each known field from its last
/// entry, and the other entries in order.
pub open spec fn decoded_as(j: Json, v: VpnApiResult) -> bool {
    match j {
        Json::Object(es) => str_slot(es@, "ip"@, v.ip) && security_slot(es@, v.security)
            && location_slot(es@, v.location) && network_slot(es@, v.network) && str_slot(
            es@,
            "message"@,
            v.message,
        ) && v.other@ == unknown_entries(es@),
        _ => false,
    }
}

/// The keys of an entry list, in order.
pub open spec fn keys_of(es: Seq<(String, Json)>) -> Seq<Seq<char>> {
    es.map_values(|e: (String, Json)| e.0@)
}

pub open spec fn opt_key<T>(o: Option<T>, k: Seq<char>) -> Seq<Seq<char>> {
    if o is Some {
        seq![k]
    } else {
        seq![]
    }
}

/// The keys of the known fields present in `v`, in the order they are written:
/// ip, security, location, network, message.
pub open spec fn known_keys(v: VpnApiResult) -> Seq<Seq<char>> {
    opt_key(v.ip, "ip"@) + opt_key(v.security, "security"@) + opt_key(v.location, "location"@)
        + opt_key(v.network, "network"@) + opt_key(v.message, "message"@)
}

/// The number of known fields present in `v`.
pub open spec fn known_count(v: VpnApiResult) -> int {
    cnt(v.ip) + cnt(v.security) + cnt(v.location) + cnt(v.network) + cnt(v.message)
}

/// `j` is the encoding of `v`: an object with each present known field once,
/// in the order of `known_keys`, followed by the other entries of `v` in order.
pub open spec fn encoded_as(v: VpnApiResult, j: Json) -> bool {
    match j {
        Json::Object(es) => find(es@, "ip"@) == str_json(v.ip) && find(es@, "message"@) == str_json(
            v.message,
        ) && match v.security {
            None => find(es@, "security"@) is None,
            Some(r) => find(es@, "security"@) matches Some(Json::Object(sub)) && security_encoded(
                sub@,
                r,
            ),
        } && match v.location {
            None => find(es@, "location"@) is None,
            Some(r) => find(es@, "location"@) matches Some(Json::Object(sub)) && location_encoded(
                sub@,
                r,
            ),
        } && match v.network {
            None => find(es@, "network"@) is None,
            Some(r) => find(es@, "network"@) matches Some(Json::Object(sub)) && network_encoded(
                sub@,
                r,
            ),
        } && unknown_entries(es@) == v.other@ && es@.len() == known_count(v) + v.other@.len()
            && es@.skip(known_count(v)) == v.other@ && keys_of(es@.take(known_count(v)))
            == known_keys(v),
        _ => false,
    }
}

/// Reads the lookup result out of a decoded document.
pub fn decode(j: Json) -> (r: Result<VpnApiResult, DecodeError>)
    ensures
        r is Ok <==> decodable(j),
        r matches Ok(v) ==> decoded_as(j, v) && v.wf(),
        r matches Err(e) ==> e == DecodeError::Shape,
{
    match j {
        Json::Object(es) => {
            let ip = match str_field(&es, "ip") {
                Ok(v) => v,
                Err(e) => return Err(e),
            };
            let security = match security_field(&es) {
                Ok(v) => v,
                Err(e) => return Err(e),
            };
            let location = match location_field(&es) {
                Ok(v) => v,
                Err(e) => return Err(e),
            };
            let network = match network_field(&es) {
                Ok(v) => v,
                Err(e) => return Err(e),
            };
            let message = match str_field(&es, "message") {
                Ok(v) => v,
                Err(e) => return Err(e),
            };
            let ghost all = es@;
            let n: usize = es.len();
            let mut rest = es;
            let mut other: Vec<(String, Json)> = Vec::new();
            let mut k: usize = 0;
            while rest.len() > 0
                invariant
                    k + rest@.len() == all.len(),
                    all.len() == n,
                    rest@ == all.skip(k as int),
                    other@ == unknown_entries(all.take(k as int)),
                    forall|i: int|
                        0 <= i < other@.len() ==> !is_known_key(#[trigger] other@[i].0@),
                decreases rest.len(),
            {
                let e = rest.remove(0);
                assert(all.take(k + 1).drop_last() =~= all.take(k as int));
                assert(e == all[k as int]);
                if !is_known(e.0.as_str()) {
                    other.push(e);
                }
                k = k + 1;
                assert(rest@ =~= all.skip(k as int));
            }
            assert(all.take(k as int) =~= all);
            Ok(VpnApiResult { ip, security, location, network, message, other })
        },
        _ => Err(DecodeError::Shape),
    }
}

proof fn lemma_keys_step(prev: Seq<(String, Json)>, es: Seq<(String, Json)>, k: Seq<char>)
    requires
        es == prev || (es.len() > 0 && es.drop_last() == prev && es.last().0@ == k),
    ensures
        es == prev ==> keys_of(es) == keys_of(prev),
        es != prev ==> keys_of(es) == keys_of(prev).push(k),
{
    if es != prev {
        assert(keys_of(es) =~= keys_of(prev).push(k));
    }
}

proof fn lemma_unknown_keep(prev: Seq<(String, Json)>, es: Seq<(String, Json)>, k: Seq<char>)
    requires
        es == prev || (es.len() > 0 && es.drop_last() == prev && es.last().0@ == k),
        is_known_key(k),
    ensures
        unknown_entries(es) == unknown_entries(prev),
        (forall|i: int| 0 <= i < prev.len() ==> is_known_key(#[trigger] prev[i].0@)) ==> forall|
            i: int,
        |
            0 <= i < es.len() ==> is_known_key(#[trigger] es[i].0@),
{
    if es != prev && forall|i: int| 0 <= i < prev.len() ==> is_known_key(#[trigger] prev[i].0@) {
        assert forall|i: int| 0 <= i < es.len() implies is_known_key(#[trigger] es[i].0@) by {
            if i < prev.len() {
                assert(es[i] == es.drop_last()[i]);
            }
        }
    }
}

/// Appends `other`, none of whose keys is a known field.
fn append_entries(es: &mut Vec<(String, Json)>, other: Vec<(String, Json)>)
    requires
        forall|i: int| 0 <= i < other@.len() ==> !is_known_key(#[trigger] other@[i].0@),
    ensures
        final(es)@ == old(es)@ + other@,
        unknown_entries(final(es)@) == unknown_entries(old(es)@) + other@,
        forall|d: Seq<char>| is_known_key(d) ==> #[trigger] find(final(es)@, d) == find(old(es)@, d),
{
    let ghost start = es@;
    let ghost src = other@;
    let n: usize = other.len();
    let mut rest = other;
    let mut k: usize = 0;
    while rest.len() > 0
        invariant
            k + rest@.len() == src.len(),
            src.len() == n,
            rest@ == src.skip(k as int),
            forall|i: int| 0 <= i < src.len() ==> !is_known_key(#[trigger] src[i].0@),
            es@ == start + src.take(k as int),
            unknown_entries(es@) == unknown_entries(start) + src.take(k as int),
            forall|d: Seq<char>| is_known_key(d) ==> #[trigger] find(es@, d) == find(start, d),
        decreases rest.len(),
    {
        let e = rest.remove(0);
        assert(e == src[k as int]);
        let ghost before = es@;
        es.push(e);
        proof {
            assert(es@.drop_last() =~= before);
            lemma_find_keep(before, es@, e.0@);
            assert(src.take(k + 1) =~= src.take(k as int).push(e));
            assert(es@ =~= start + src.take(k + 1));
            assert(unknown_entries(es@) =~= unknown_entries(start) + src.take(k + 1));
        }
        k = k + 1;
        assert(rest@ =~= src.skip(k as int));
    }
    assert(src.take(k as int) =~= src);
}

impl VpnApiResult {
    /// The result as a document: the present known fields in a fixed order,
    /// then the other entries in their order. Absent fields are left out.
    #[verifier::rlimit(40)]
    pub fn into_json(self) -> (r: Json)
        requires
            self.wf(),
        ensures
            encoded_as(self, r),
    {
        let mut es: Vec<(String, Json)> = Vec::new();
        proof {
            reveal_strlit("ip");
            assert("ip"@.len() == 2 && "ip"@[0] == 'i');
            reveal_strlit("security");
            assert("security"@.len() == 8 && "security"@[0] == 's');
            reveal_strlit("location");
            assert("location"@.len() == 8 && "location"@[0] == 'l');
            reveal_strlit("network");
            assert("network"@.len() == 7 && "network"@[0] == 'n');
            reveal_strlit("message");
            assert("message"@.len() == 7 && "message"@[0] == 'm');
        }
        let ghost prev = es@;
        push_str(&mut es, "ip", self.ip);
        proof {
            lemma_find_keep(prev, es@, "ip"@);
            lemma_unknown_keep(prev, es@, "ip"@);
            lemma_keys_step(prev, es@, "ip"@);
        }
        assert(keys_of(es@) =~= opt_key(self.ip, "ip"@));
        let ghost prev = es@;
        match self.security {
            Some(r) => push_entry(&mut es, "security", Json::Object(security_entries(r))),
            None => {},
        }
        proof {
            lemma_find_keep(prev, es@, "security"@);
            lemma_unknown_keep(prev, es@, "security"@);
            lemma_keys_step(prev, es@, "security"@);
        }
        assert(keys_of(es@) =~= opt_key(self.ip, "ip"@) + opt_key(self.security, "security"@));
        let ghost prev = es@;
        match self.location {
            Some(r) => push_entry(&mut es, "location", Json::Object(location_entries(r))),
            None => {},
        }
        proof {
            lemma_find_keep(prev, es@, "location"@);
            lemma_unknown_keep(prev, es@, "location"@);
            lemma_keys_step(prev, es@, "location"@);
        }
        assert(keys_of(es@) =~= opt_key(self.ip, "ip"@) + opt_key(self.security, "security"@) + opt_key(self.location, "location"@));
        let ghost prev = es@;
        match self.network {
            Some(r) => push_entry(&mut es, "network", Json::Object(network_entries(r))),
            None => {},
        }
        proof {
            lemma_find_keep(prev, es@, "network"@);
            lemma_unknown_keep(prev, es@, "network"@);
            lemma_keys_step(prev, es@, "network"@);
        }
        assert(keys_of(es@) =~= opt_key(self.ip, "ip"@) + opt_key(self.security, "security"@) + opt_key(self.location, "location"@) + opt_key(self.network, "network"@));
        let ghost prev = es@;
        push_str(&mut es, "message", self.message);
        proof {
            lemma_find_keep(prev, es@, "message"@);
            lemma_unknown_keep(prev, es@, "message"@);
            lemma_keys_step(prev, es@, "message"@);
        }
        assert(keys_of(es@) =~= opt_key(self.ip, "ip"@) + opt_key(self.security, "security"@) + opt_key(self.location, "location"@) + opt_key(self.network, "network"@) + opt_key(self.message, "message"@));
        assert(find(es@, "ip"@) == str_json(self.ip));
        assert(unknown_entries(es@) =~= Seq::<(String, Json)>::empty());
        let ghost base = es@;
        append_entries(&mut es, self.other);
        assert(es@.skip(base.len() as int) =~= self.other@);
        assert(es@.take(base.len() as int) =~= base);
        assert(unknown_entries(base) + self.other@ =~= self.other@);
        Json::Object(es)
    }
}

pub open spec fn drop_null(x: Option<Json>) -> Option<Json> {
    match x {
        Some(Json::Null) => None,
        _ => x,
    }
}

/// Decoding a document and encoding the result again keeps every entry whose
/// key is not a known field, unchanged and in order; a known text field comes
/// back with the same value, and a known record field comes back exactly where
/// it was present; a known field that was absent or null is left out.
pub proof fn lemma_round_trip(j: Json, v: VpnApiResult, out: Json)
    requires
        decoded_as(j, v),
        encoded_as(v, out),
    ensures
        j matches Json::Object(es) && out matches Json::Object(es2) && unknown_entries(es2@)
            == unknown_entries(es@) && find(es2@, "ip"@) == drop_null(find(es@, "ip"@))
            && find(es2@, "message"@) == drop_null(find(es@, "message"@)) && (find(
            es2@,
            "security"@,
        ) is Some <==> drop_null(find(es@, "security"@)) is Some) && (find(es2@, "location"@) is Some
            <==> drop_null(find(es@, "location"@)) is Some) && (find(es2@, "network"@) is Some
            <==> drop_null(find(es@, "network"@)) is Some),
{
}


// ---------------------------------------------------------------------------
// Text.
// ---------------------------------------------------------------------------

/// What `serde_json::from_str` reads from a text, as a document two object
/// levels deep; `None` where the text is not JSON.
pub uninterp spec fn json_doc(text: Seq<char>) -> Option<Json>;

/// Relies on `serde_json::from_str`: reads JSON text into a `serde_json::Value`,
/// `None` where the text is not JSON; the value is then read by `json_of`.
/// The result depends on the text alone.
#[verifier::external_body]
fn parse_doc(text: &str) -> (r: Option<Json>)
    ensures
        r == json_doc(text@),
{
    serde_json::from_str::<serde_json::Value>(text).ok().map(|v| json_of(v, 2))
}

/// Relies on the variants of `serde_json::Value`; an object's entries come out
/// of `serde_json::Map::into_iter` in the map's order.
#[verifier::external_body]
fn shape_of(v: serde_json::Value) -> (r: Shape) {
    match v {
        serde_json::Value::Null => Shape::Null,
        serde_json::Value::Bool(b) => Shape::Bool(b),
        serde_json::Value::String(s) => Shape::Str(s),
        serde_json::Value::Object(m) => Shape::Object(m.into_iter().collect()),
        other => Shape::Other(other),
    }
}

/// Relies on the variants of `serde_json::Value`; an object is collected into
/// a `serde_json::Map` from its entries in order.
#[verifier::external_body]
fn value_of(s: Shape) -> (r: serde_json::Value) {
    match s {
        Shape::Null => serde_json::Value::Null,
        Shape::Bool(b) => serde_json::Value::Bool(b),
        Shape::Str(x) => serde_json::Value::String(x),
        Shape::Object(es) => serde_json::Value::Object(es.into_iter().collect()),
        Shape::Other(v) => v,
    }
}

/// What `serde_json::to_string` writes for the value a document stands for.
pub uninterp spec fn compact_of(j: Json) -> Seq<char>;

/// What `serde_json::to_string_pretty` writes for the value a document stands for.
pub uninterp spec fn pretty_of(j: Json) -> Seq<char>;

/// Relies on `serde_json::to_string`: compact JSON text of the value that
/// `value_of_json` builds. Writing a `serde_json::Value` cannot fail (its maps
/// have string keys), so the default is never taken.
#[verifier::external_body]
fn compact_text(j: Json) -> (r: String)
    ensures
        r@ == compact_of(j),
{
    serde_json::to_string(&value_of_json(j)).unwrap_or_default()
}

/// Relies on `serde_json::to_string_pretty`: indented JSON text of the value
/// that `value_of_json` builds; as above, it cannot fail.
#[verifier::external_body]
fn pretty_text(j: Json) -> (r: String)
    ensures
        r@ == pretty_of(j),
{
    serde_json::to_string_pretty(&value_of_json(j)).unwrap_or_default()
}

/// The document that a value holds, objects read `depth` levels deep; an
/// object below that is carried as it is.
fn json_of(v: serde_json::Value, depth: usize) -> (r: Json)
    decreases depth,
{
    match shape_of(v) {
        Shape::Null => Json::Null,
        Shape::Bool(b) => Json::Bool(b),
        Shape::Str(s) => Json::Str(s),
        Shape::Other(x) => Json::Other(x),
        Shape::Object(es) => {
            if depth == 0 {
                Json::Other(value_of(Shape::Object(es)))
            } else {
                let mut out: Vec<(String, Json)> = Vec::new();
                let mut rest = es;
                while rest.len() > 0
                    invariant
                        depth > 0,
                    decreases rest.len(),
                {
                    let (k, x) = rest.remove(0);
                    out.push((k, json_of(x, depth - 1)));
                }
                Json::Object(out)
            }
        },
    }
}

/// The value that a document stands for.
fn value_of_json(j: Json) -> (r: serde_json::Value)
    decreases j,
{
    match j {
        Json::Null => value_of(Shape::Null),
        Json::Bool(b) => value_of(Shape::Bool(b)),
        Json::Str(s) => value_of(Shape::Str(s)),
        Json::Other(v) => v,
        Json::Object(es) => {
            let ghost whole = es;
            let mut out: Vec<(String, serde_json::Value)> = Vec::new();
            let mut rest = es;
            let mut k: usize = 0;
            let n: usize = rest.len();
            while rest.len() > 0
                invariant
                    j == Json::Object(whole),
                    whole.len() == n,
                    k + rest@.len() == n,
                    rest@ == whole@.skip(k as int),
                decreases rest.len(),
            {
                let (key, x) = rest.remove(0);
                proof {
                    assert(x == whole@[k as int].1);
                    axiom_vec_index_decreases(whole, k as int);
                    assert(j->Object_0 == whole);
                    assert(decreases_to!(j => j->Object_0));
                }
                out.push((key, value_of_json(x)));
                k = k + 1;
                assert(rest@ =~= whole@.skip(k as int));
            }
            value_of(Shape::Object(out))
        },
    }
}

/// Reads a response body: JSON text whose top level is an object. Text that
/// is not JSON is a syntax error; a document that does not decode is a shape
/// error.
pub fn decode_body(body: &str) -> (r: Result<VpnApiResult, DecodeError>)
    ensures
        json_doc(body@) is None ==> r == Err::<VpnApiResult, DecodeError>(DecodeError::Syntax),
        json_doc(body@) matches Some(j) ==> {
            &&& (r is Ok <==> decodable(j))
            &&& (r matches Ok(v) ==> decoded_as(j, v) && v.wf())
            &&& (r matches Err(e) ==> e == DecodeError::Shape)
        },
{
    match parse_doc(body) {
        None => Err(DecodeError::Syntax),
        Some(j) => decode(j),
    }
}

/// The text written for a document: indented where `pretty` holds, compact
/// otherwise.
pub open spec fn doc_text(j: Json, pretty: bool) -> Seq<char> {
    if pretty {
        pretty_of(j)
    } else {
        compact_of(j)
    }
}

/// JSON text of a document, indented where `pretty` holds.
pub fn json_text(j: Json, pretty: bool) -> (r: String)
    ensures
        r@ == doc_text(j, pretty),
{
    if pretty {
        pretty_text(j)
    } else {
        compact_text(j)
    }
}

} // verus!
